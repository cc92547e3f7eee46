use guru::agent::{
    fenced_status, resolve_fallback, watch_step, WatchAction, WatchEnd, WatchEvent, WatchFence,
    WatchStep,
};

fn mine() -> WatchFence {
    WatchFence { generation: 3, epoch: 7 }
}

#[test]
fn watch_first_send_is_the_newer_of_row_and_hub() {
    let r = watch_step(mine(), WatchStep::Starting, WatchEvent::Opened { row_desired: 4, hub_last: 6 });
    assert_eq!(r, (WatchStep::Streaming, WatchAction::Send(6)));
    let r = watch_step(mine(), WatchStep::Starting, WatchEvent::Opened { row_desired: 9, hub_last: 6 });
    assert_eq!(r, (WatchStep::Streaming, WatchAction::Send(9)));
}

#[test]
fn watch_sends_announced_revisions() {
    let r = watch_step(mine(), WatchStep::Streaming, WatchEvent::Revision(12));
    assert_eq!(r, (WatchStep::Streaming, WatchAction::Send(12)));
}

#[test]
fn watch_foreign_fence_ends_with_fenced_status() {
    let newer_key = WatchFence { generation: 4, epoch: 1 };
    let r = watch_step(mine(), WatchStep::Streaming, WatchEvent::Fenced(newer_key));
    assert_eq!(r, (WatchStep::Ended, WatchAction::End(Some(WatchEnd::KeySuperseded))));
    let newer_stream = WatchFence { generation: 3, epoch: 8 };
    let r = watch_step(mine(), WatchStep::Streaming, WatchEvent::Fenced(newer_stream));
    assert_eq!(r, (WatchStep::Ended, WatchAction::End(Some(WatchEnd::TakenOver))));
}

#[test]
fn watch_own_fence_is_ignored() {
    let r = watch_step(mine(), WatchStep::Streaming, WatchEvent::Fenced(mine()));
    assert_eq!(r, (WatchStep::Streaming, WatchAction::Wait));
}

#[test]
fn watch_lag_rereads_the_row() {
    let r = watch_step(mine(), WatchStep::Streaming, WatchEvent::Lagged);
    assert_eq!(r, (WatchStep::Rereading, WatchAction::ReadRow));
    let r = watch_step(
        mine(),
        WatchStep::Rereading,
        WatchEvent::RowRead { fence: mine(), desired_revision: 15 },
    );
    assert_eq!(r, (WatchStep::Streaming, WatchAction::Send(15)));
    let moved = WatchFence { generation: 3, epoch: 9 };
    let r = watch_step(
        mine(),
        WatchStep::Rereading,
        WatchEvent::RowRead { fence: moved, desired_revision: 15 },
    );
    assert_eq!(r, (WatchStep::Ended, WatchAction::End(Some(WatchEnd::TakenOver))));
}

#[test]
fn watch_lost_lease_ends_the_stream() {
    let r = watch_step(mine(), WatchStep::Streaming, WatchEvent::Heartbeat { renewed: true });
    assert_eq!(r, (WatchStep::Streaming, WatchAction::Wait));
    let r = watch_step(mine(), WatchStep::Streaming, WatchEvent::Heartbeat { renewed: false });
    assert_eq!(r, (WatchStep::Ended, WatchAction::End(Some(WatchEnd::LeaseLost))));
    assert_eq!(WatchEnd::LeaseLost.message(), "watch session lease lost");
    assert!(!WatchEnd::LeaseLost.is_unauthenticated());
}

#[test]
fn watch_hang_up_ends_without_error_and_ended_stays_ended() {
    let r = watch_step(mine(), WatchStep::Streaming, WatchEvent::Closed);
    assert_eq!(r, (WatchStep::Ended, WatchAction::End(None)));
    let r = watch_step(mine(), WatchStep::Ended, WatchEvent::Revision(20));
    assert_eq!(r, (WatchStep::Ended, WatchAction::Wait));
}

#[test]
fn watch_fenced_status_messages() {
    let e = fenced_status(mine(), WatchFence { generation: 5, epoch: 7 });
    assert_eq!(e, WatchEnd::KeySuperseded);
    assert!(e.is_unauthenticated());
    assert_eq!(e.message(), "refresh key superseded");
    let e = fenced_status(mine(), WatchFence { generation: 3, epoch: 2 });
    assert_eq!(e.message(), "a newer watch session took over");
}

#[test]
fn watch_resolve_falls_back_to_the_desired_revision() {
    assert_eq!(resolve_fallback(5, 0), None);
    assert_eq!(resolve_fallback(5, 5), None);
    assert_eq!(resolve_fallback(5, 8), Some(8));
    assert_eq!(resolve_fallback(0, 8), Some(8));
}
