use implink::bytes::{bytes_eq, join_path};
use implink::errors::{LinkError, MoveError, RemoveError};
use implink::link_machine::{
    link_action, link_flavor, link_init, link_outcome, link_step, LinkAction, LinkEvent,
    LinkFlavor, LinkRequest, LinkState,
};
use implink::mover::{
    move_action, move_init, move_outcome, move_step, MoveAction, MoveEvent, MoveState,
};
use implink::plan::{plan_invocation, record_for, request_of, CliRequest, Plan};
use implink::progress::{effective_width, progress_percent};
use implink::remover::{remove_outcome, remove_step, RemoveEvent, RemoveState};

fn req(src: &str, dst: &str, force: bool, junction: bool) -> LinkRequest {
    LinkRequest {
        src: src.as_bytes().to_vec(),
        dst: dst.as_bytes().to_vec(),
        force,
        junction,
    }
}

#[test]
fn link_fresh_destination_succeeds() {
    let r = req("/tmp/real.txt", "/tmp/link.txt", false, false);
    let s = link_init(&r);
    assert_eq!(link_action(&s), Some(LinkAction::ProbeSource));
    let s = link_step(r.force, s, LinkEvent::SourceExists(true));
    assert_eq!(link_action(&s), Some(LinkAction::ProbeDestination));
    let s = link_step(r.force, s, LinkEvent::DestProbe(Some(false)));
    assert_eq!(link_action(&s), Some(LinkAction::MakeLink));
    let s = link_step(r.force, s, LinkEvent::Linked(true));
    assert_eq!(s, LinkState::Done);
    assert_eq!(link_outcome(&s), Some(Ok(())));
}

#[test]
fn link_missing_source_fails() {
    let r = req("/nope", "/tmp/l", false, false);
    let s = link_init(&r);
    let s = link_step(r.force, s, LinkEvent::SourceExists(false));
    assert_eq!(link_outcome(&s), Some(Err(LinkError::SourceMissing)));
}

#[test]
fn link_occupied_destination_blocks_without_force() {
    let r = req("/tmp/a", "/tmp/b", false, false);
    let s = link_init(&r);
    let s = link_step(r.force, s, LinkEvent::SourceExists(true));
    let s = link_step(r.force, s, LinkEvent::DestProbe(Some(true)));
    assert_eq!(link_action(&s), Some(LinkAction::RemoveEmptyDir));
    let s = link_step(r.force, s, LinkEvent::Removed(false));
    assert_eq!(link_outcome(&s), Some(Err(LinkError::DestinationExists)));
}

#[test]
fn link_empty_dir_destination_is_cleared_without_force() {
    let r = req("/tmp/a", "/tmp/emptydir", false, false);
    let s = link_init(&r);
    let s = link_step(r.force, s, LinkEvent::SourceExists(true));
    let s = link_step(r.force, s, LinkEvent::DestProbe(Some(true)));
    let s = link_step(r.force, s, LinkEvent::Removed(true));
    assert_eq!(link_action(&s), Some(LinkAction::MakeLink));
    let s = link_step(r.force, s, LinkEvent::Linked(true));
    assert_eq!(link_outcome(&s), Some(Ok(())));
}

#[test]
fn link_forced_overwrites_conflicting_destination() {
    let r = req("/tmp/a", "/tmp/busy", true, false);
    let s = link_init(&r);
    let s = link_step(r.force, s, LinkEvent::SourceExists(true));
    let s = link_step(r.force, s, LinkEvent::DestProbe(Some(true)));
    assert_eq!(link_action(&s), Some(LinkAction::ForceRemove));
    let s = link_step(r.force, s, LinkEvent::Removed(true));
    let s = link_step(r.force, s, LinkEvent::Linked(true));
    assert_eq!(link_outcome(&s), Some(Ok(())));
}

#[test]
fn link_forced_cleanup_failure_is_fatal() {
    let r = req("/tmp/a", "/tmp/busy", true, false);
    let s = link_init(&r);
    let s = link_step(r.force, s, LinkEvent::SourceExists(true));
    let s = link_step(r.force, s, LinkEvent::DestProbe(Some(true)));
    let s = link_step(r.force, s, LinkEvent::Removed(false));
    assert_eq!(link_outcome(&s), Some(Err(LinkError::CleanupFailed)));
}

#[test]
fn link_probe_error_without_force_aborts() {
    let r = req("/tmp/a", "/tmp/b", false, false);
    let s = link_init(&r);
    let s = link_step(r.force, s, LinkEvent::SourceExists(true));
    let s = link_step(r.force, s, LinkEvent::DestProbe(None));
    assert_eq!(link_outcome(&s), Some(Err(LinkError::ProbeFailed)));
}

#[test]
fn link_probe_error_with_force_assumes_existence() {
    let r = req("/tmp/a", "/tmp/b", true, false);
    let s = link_init(&r);
    let s = link_step(r.force, s, LinkEvent::SourceExists(true));
    let s = link_step(r.force, s, LinkEvent::DestProbe(None));
    assert_eq!(link_action(&s), Some(LinkAction::ForceRemove));
}

#[test]
fn link_failure_without_force_is_fatal() {
    let r = req("/tmp/a", "/tmp/b", false, false);
    let s = link_init(&r);
    let s = link_step(r.force, s, LinkEvent::SourceExists(true));
    let s = link_step(r.force, s, LinkEvent::DestProbe(Some(false)));
    let s = link_step(r.force, s, LinkEvent::Linked(false));
    assert_eq!(
        link_outcome(&s),
        Some(Err(LinkError::LinkFailed { retried: false }))
    );
}

#[test]
fn link_forced_retries_exactly_once() {
    let r = req("/tmp/a", "/tmp/b", true, false);
    let s = link_init(&r);
    let s = link_step(r.force, s, LinkEvent::SourceExists(true));
    let s = link_step(r.force, s, LinkEvent::DestProbe(Some(false)));
    let s = link_step(r.force, s, LinkEvent::Linked(false));
    assert_eq!(link_action(&s), Some(LinkAction::ForceRemove));
    let s = link_step(r.force, s, LinkEvent::Removed(true));
    assert_eq!(link_action(&s), Some(LinkAction::MakeLink));
    let s = link_step(r.force, s, LinkEvent::Linked(false));
    assert_eq!(
        link_outcome(&s),
        Some(Err(LinkError::LinkFailed { retried: true }))
    );
}

#[test]
fn link_source_equals_destination_is_rejected() {
    let r = req("/tmp/real.txt", "/tmp/real.txt", false, false);
    let s = link_init(&r);
    assert_eq!(link_outcome(&s), Some(Err(LinkError::SourceEqualsDestination)));
    let forced = req("/tmp/real.txt", "/tmp/real.txt", true, true);
    let s2 = link_init(&forced);
    assert_eq!(
        link_outcome(&s2),
        Some(Err(LinkError::SourceEqualsDestination))
    );
}

#[test]
fn link_flavor_dispatch() {
    assert_eq!(link_flavor(false, false), LinkFlavor::FileSymlink);
    assert_eq!(link_flavor(false, true), LinkFlavor::FileSymlink);
    assert_eq!(link_flavor(true, false), LinkFlavor::DirSymlink);
    assert_eq!(link_flavor(true, true), LinkFlavor::DirJunction);
}

#[test]
fn remover_primary_success() {
    let s = remove_step(true, RemoveState::Primary, RemoveEvent::Attempted(true));
    assert_eq!(remove_outcome(&s), Some(Ok(())));
}

#[test]
fn remover_fallback_recovers() {
    let s = remove_step(true, RemoveState::Primary, RemoveEvent::Attempted(false));
    assert_eq!(s, RemoveState::Fallback);
    let s = remove_step(true, s, RemoveEvent::Attempted(true));
    assert_eq!(remove_outcome(&s), Some(Ok(())));
}

#[test]
fn remover_fallback_invoke_failure_is_fatal() {
    let s = remove_step(true, RemoveState::Primary, RemoveEvent::Attempted(false));
    let s = remove_step(true, s, RemoveEvent::Attempted(false));
    assert_eq!(remove_outcome(&s), Some(Err(RemoveError::Fatal)));
}

#[test]
fn remover_without_fallback_stops_on_primary_failure() {
    let s = remove_step(false, RemoveState::Primary, RemoveEvent::Attempted(false));
    assert_eq!(remove_outcome(&s), Some(Err(RemoveError::PrimaryFailed)));
}

#[test]
fn mover_file_is_renamed() {
    let s = move_init();
    assert_eq!(move_action(&s), Some(MoveAction::ProbeSourceKind));
    let s = move_step(false, s, MoveEvent::SourceIsFile(true));
    assert_eq!(move_action(&s), Some(MoveAction::RenameFile));
    let s = move_step(false, s, MoveEvent::Renamed(true));
    assert_eq!(move_outcome(&s), Some(Ok(())));
}

#[test]
fn mover_rename_failure_surfaces() {
    let s = move_init();
    let s = move_step(false, s, MoveEvent::SourceIsFile(true));
    let s = move_step(false, s, MoveEvent::Renamed(false));
    assert_eq!(move_outcome(&s), Some(Err(MoveError::RenameFailed)));
}

#[test]
fn mover_directory_moves_each_child() {
    let s = move_init();
    let s = move_step(false, s, MoveEvent::SourceIsFile(false));
    assert_eq!(move_action(&s), Some(MoveAction::ProbeDestination));
    let s = move_step(false, s, MoveEvent::DestExists(false));
    assert_eq!(move_action(&s), Some(MoveAction::CreateDirAll));
    let s = move_step(false, s, MoveEvent::Created(true));
    assert_eq!(move_action(&s), Some(MoveAction::ReadChildren));
    let names = vec![b"one".to_vec(), b"two".to_vec()];
    let s = move_step(false, s, MoveEvent::Children(names));
    assert_eq!(
        move_action(&s),
        Some(MoveAction::MoveChild { name: b"one".to_vec() })
    );
    let s = move_step(false, s, MoveEvent::ChildMoved(true));
    assert_eq!(
        move_action(&s),
        Some(MoveAction::MoveChild { name: b"two".to_vec() })
    );
    let s = move_step(false, s, MoveEvent::ChildMoved(true));
    assert_eq!(move_outcome(&s), Some(Ok(())));
}

#[test]
fn mover_empty_directory_is_done_after_listing() {
    let s = move_init();
    let s = move_step(false, s, MoveEvent::SourceIsFile(false));
    let s = move_step(false, s, MoveEvent::DestExists(true));
    let s = move_step(false, s, MoveEvent::DestEmpty(true));
    let s = move_step(false, s, MoveEvent::Children(Vec::new()));
    assert_eq!(move_outcome(&s), Some(Ok(())));
}

#[test]
fn mover_occupied_destination_blocks_without_force() {
    let s = move_init();
    let s = move_step(false, s, MoveEvent::SourceIsFile(false));
    let s = move_step(false, s, MoveEvent::DestExists(true));
    let s = move_step(false, s, MoveEvent::DestEmpty(false));
    assert_eq!(move_outcome(&s), Some(Err(MoveError::DestinationNotEmpty)));
}

#[test]
fn mover_occupied_destination_is_cleared_with_force() {
    let s = move_init();
    let s = move_step(true, s, MoveEvent::SourceIsFile(false));
    let s = move_step(true, s, MoveEvent::DestExists(true));
    let s = move_step(true, s, MoveEvent::DestEmpty(false));
    assert_eq!(move_action(&s), Some(MoveAction::RemoveTree));
    let s = move_step(true, s, MoveEvent::Removed(true));
    assert_eq!(move_action(&s), Some(MoveAction::CreateDirAll));
    let s = move_step(true, s, MoveEvent::Created(true));
    assert_eq!(move_action(&s), Some(MoveAction::ReadChildren));
    let s = move_step(true, s, MoveEvent::Children(vec![b"kid".to_vec()]));
    let s = move_step(true, s, MoveEvent::ChildMoved(true));
    assert_eq!(move_outcome(&s), Some(Ok(())));
}

#[test]
fn mover_child_failure_aborts() {
    let s = move_init();
    let s = move_step(false, s, MoveEvent::SourceIsFile(false));
    let s = move_step(false, s, MoveEvent::DestExists(false));
    let s = move_step(false, s, MoveEvent::Created(true));
    let s = move_step(false, s, MoveEvent::Children(vec![b"a".to_vec(), b"b".to_vec()]));
    let s = move_step(false, s, MoveEvent::ChildMoved(false));
    assert_eq!(move_outcome(&s), Some(Err(MoveError::ChildMoveFailed)));
    assert!(matches!(s, MoveState::Stopped(_)));
}

#[test]
fn progress_width_and_percent() {
    assert_eq!(effective_width(Some(120)), 120);
    assert_eq!(effective_width(None), 86);
    assert_eq!(progress_percent(0, 10), 0);
    assert_eq!(progress_percent(5, 10), 50);
    assert_eq!(progress_percent(10, 10), 100);
    assert_eq!(progress_percent(1, 3), 33);
    assert_eq!(progress_percent(u64::MAX, u64::MAX), 100);
}

#[test]
fn plan_restore_wins() {
    let input = CliRequest {
        src: Some(b"/a".to_vec()),
        dst: Some(b"/b".to_vec()),
        force: true,
        junction: true,
        move_and_link: true,
        generate_mapping: Some(b"/map.json".to_vec()),
        restore_mapping: Some(b"/restore.json".to_vec()),
    };
    let p = plan_invocation(input);
    assert!(matches!(p, Plan::Restore { ref path } if path == &b"/restore.json".to_vec()));
}

#[test]
fn plan_usage_when_paths_missing() {
    let input = CliRequest {
        src: Some(b"/a".to_vec()),
        dst: None,
        force: false,
        junction: false,
        move_and_link: false,
        generate_mapping: None,
        restore_mapping: None,
    };
    assert!(matches!(plan_invocation(input), Plan::Usage));
}

#[test]
fn plan_move_and_link_reverses_paths() {
    let input = CliRequest {
        src: Some(b"/data".to_vec()),
        dst: Some(b"/store".to_vec()),
        force: true,
        junction: false,
        move_and_link: true,
        generate_mapping: Some(b"/m.json".to_vec()),
        restore_mapping: None,
    };
    match plan_invocation(input) {
        Plan::MoveAndLink { move_src, move_dst, request, mapping_out } => {
            assert_eq!(move_src, b"/data".to_vec());
            assert_eq!(move_dst, b"/store".to_vec());
            assert_eq!(request.src, b"/store".to_vec());
            assert_eq!(request.dst, b"/data".to_vec());
            assert!(request.force);
            assert!(!request.junction);
            assert_eq!(mapping_out, Some(b"/m.json".to_vec()));
        },
        _ => panic!("expected a move-and-link plan"),
    }
}

#[test]
fn plan_direct_link() {
    let input = CliRequest {
        src: Some(b"/x".to_vec()),
        dst: Some(b"/y".to_vec()),
        force: false,
        junction: true,
        move_and_link: false,
        generate_mapping: None,
        restore_mapping: None,
    };
    match plan_invocation(input) {
        Plan::LinkOnly { request, mapping_out } => {
            assert_eq!(request.src, b"/x".to_vec());
            assert_eq!(request.dst, b"/y".to_vec());
            assert!(!request.force);
            assert!(request.junction);
            assert!(mapping_out.is_none());
        },
        _ => panic!("expected a plain link plan"),
    }
}

#[test]
fn record_and_request_round() {
    let r = req("/s", "/d", true, false);
    let m = record_for(&r);
    assert_eq!(m.src, b"/s".to_vec());
    assert_eq!(m.dst, b"/d".to_vec());
    assert!(m.force);
    assert!(!m.junction);
    let back = request_of(&m);
    assert_eq!(back.src, r.src);
    assert_eq!(back.dst, r.dst);
    assert_eq!(back.force, r.force);
    assert_eq!(back.junction, r.junction);
}

#[test]
fn byte_helpers() {
    assert!(bytes_eq(&b"abc".to_vec(), &b"abc".to_vec()));
    assert!(!bytes_eq(&b"abc".to_vec(), &b"abd".to_vec()));
    assert!(!bytes_eq(&b"abc".to_vec(), &b"ab".to_vec()));
    assert_eq!(join_path(&b"/root".to_vec(), &b"kid".to_vec()), b"/root/kid".to_vec());
}
