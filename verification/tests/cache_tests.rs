use approval_import::cache::cache_session_info_for_head;
use approval_import::memory::MemoryRuntime;
use approval_import::primitives::{BlockHash, Digest, Header, SessionInfo};
use approval_import::window::RollingSessionWindow;
use approval_import::APPROVAL_SESSIONS;

fn cached_session_info(index: u32) -> SessionInfo {
    SessionInfo {
        n_validators: 0,
        n_discovery_keys: 0,
        n_assignment_keys: 0,
        n_validator_groups: 0,
        n_cores: index,
        zeroth_delay_tranche_width: index,
        relay_vrf_modulo_samples: index,
        n_delay_tranches: index,
        no_show_slots: index,
        needed_approvals: index,
    }
}

fn session_range(from: u32, to: u32) -> Vec<SessionInfo> {
    let mut out = Vec::new();
    let mut i = from;
    while i <= to {
        out.push(cached_session_info(i));
        i += 1;
    }
    out
}

/// Runs one cache update for a head governed by `session`, serving only
/// the sessions from `expect_requests_from` on: a request outside that
/// range would make the update fail.
fn cache_session_info_case(session: u32, mut window: RollingSessionWindow,
    expect_requests_from: u32) {
    let start_session = session.saturating_sub(APPROVAL_SESSIONS - 1);

    let header = Header {
        parent_hash: BlockHash(0),
        number: 5,
        digest: Digest::empty(),
    };
    let hash = BlockHash(77);

    let mut runtime = MemoryRuntime::new();
    runtime.insert_session_index(header.parent_hash, session);
    let mut i = expect_requests_from;
    while i <= session {
        runtime.insert_session_info(hash, i, cached_session_info(i));
        i += 1;
    }

    cache_session_info_for_head(&runtime, &mut window, hash, &header).unwrap();

    assert_eq!(window.earliest_session, Some(start_session));
    assert_eq!(window.session_info, session_range(start_session, session));
}

#[test]
fn cache_session_info_first_early() {
    cache_session_info_case(1, RollingSessionWindow::new(), 0);
}

#[test]
fn cache_session_info_first_late() {
    cache_session_info_case(100, RollingSessionWindow::new(),
        (100 as u32).saturating_sub(APPROVAL_SESSIONS - 1));
}

#[test]
fn cache_session_info_jump() {
    let window = RollingSessionWindow {
        earliest_session: Some(50),
        session_info: vec![
            cached_session_info(50),
            cached_session_info(51),
            cached_session_info(52),
        ],
    };

    cache_session_info_case(100, window,
        (100 as u32).saturating_sub(APPROVAL_SESSIONS - 1));
}

#[test]
fn cache_session_info_roll_full() {
    let start = 99 - (APPROVAL_SESSIONS - 1);
    let window = RollingSessionWindow {
        earliest_session: Some(start),
        session_info: session_range(start, 99),
    };

    // Only one session is missing, so only one may be requested.
    cache_session_info_case(100, window, 100);
}

#[test]
fn cache_session_info_roll_many_full() {
    let start = 97 - (APPROVAL_SESSIONS - 1);
    let window = RollingSessionWindow {
        earliest_session: Some(start),
        session_info: session_range(start, 97),
    };

    cache_session_info_case(100, window, 98);
}

#[test]
fn cache_session_info_roll_early() {
    let window = RollingSessionWindow {
        earliest_session: Some(0),
        session_info: session_range(0, 1),
    };

    // Only one session is missing, so only one may be requested.
    cache_session_info_case(2, window, 2);
}

#[test]
fn cache_session_info_roll_many_early() {
    let window = RollingSessionWindow {
        earliest_session: Some(0),
        session_info: session_range(0, 1),
    };

    cache_session_info_case(3, window, 2);
}

#[test]
fn any_session_unavailable_for_caching_means_no_change() {
    let session: u32 = 6;
    let start_session = session.saturating_sub(APPROVAL_SESSIONS - 1);

    let header = Header {
        parent_hash: BlockHash(0),
        number: 5,
        digest: Digest::empty(),
    };
    let hash = BlockHash(77);

    let mut runtime = MemoryRuntime::new();
    runtime.insert_session_index(header.parent_hash, session);
    // Serve every session of the range but the last.
    let mut i = start_session;
    while i < session {
        runtime.insert_session_info(hash, i, cached_session_info(i));
        i += 1;
    }

    let mut window = RollingSessionWindow::new();
    let res = cache_session_info_for_head(&runtime, &mut window, hash, &header);

    assert!(res.is_err());
    assert_eq!(window.earliest_session, None);
    assert!(window.session_info.is_empty());
}

#[test]
fn request_session_info_for_genesis() {
    let session: u32 = 0;

    let header = Header {
        parent_hash: BlockHash(0),
        number: 0,
        digest: Digest::empty(),
    };
    let hash = BlockHash(77);

    let mut runtime = MemoryRuntime::new();
    // At genesis the block's own state answers, not the parent's.
    runtime.insert_session_index(hash, session);
    runtime.insert_session_info(hash, session, cached_session_info(session));

    let mut window = RollingSessionWindow::new();
    cache_session_info_for_head(&runtime, &mut window, hash, &header).unwrap();

    assert_eq!(window.earliest_session, Some(session));
    assert_eq!(window.session_info, vec![cached_session_info(session)]);
}

#[test]
fn cache_session_info_twice_is_idempotent() {
    // First update fills the window for session 10; a second head in
    // the same session leaves the window unchanged.
    let header = Header {
        parent_hash: BlockHash(0),
        number: 5,
        digest: Digest::empty(),
    };
    let hash = BlockHash(77);

    let mut runtime = MemoryRuntime::new();
    runtime.insert_session_index(header.parent_hash, 10);
    let mut i = 5;
    while i <= 10 {
        runtime.insert_session_info(hash, i, cached_session_info(i));
        i += 1;
    }

    let mut window = RollingSessionWindow::new();
    cache_session_info_for_head(&runtime, &mut window, hash, &header).unwrap();
    let first = window.clone();

    // The second head reports an earlier session; nothing is fetched
    // and nothing changes.
    let mut runtime2 = MemoryRuntime::new();
    runtime2.insert_session_index(header.parent_hash, 9);
    cache_session_info_for_head(&runtime2, &mut window, hash, &header).unwrap();

    assert_eq!(window.earliest_session, first.earliest_session);
    assert_eq!(window.session_info, first.session_info);
    assert_eq!(window.latest_session(), Some(10));
}
