//! Keeping the rolling session window in step with new heads.

use vstd::prelude::*;

use crate::api::{RuntimeApi, RuntimeModel};
use crate::primitives::{BlockHash, Header, SessionIndex, SessionInfo};
use crate::window::RollingSessionWindow;
use crate::APPROVAL_SESSIONS;

verus! {

/// The sessions needed for an update could not all be loaded.
#[derive(Clone, Copy, Debug, PartialEq, Eq, Structural)]
pub struct SessionsUnavailable;

/// The block whose state answers the session-index query: the block
/// itself at genesis, else its parent.
pub open spec fn query_hash(block_hash: BlockHash, header: Header) -> BlockHash {
    if header.number == 0 {
        block_hash
    } else {
        header.parent_hash
    }
}

/// The first session a window ending at `s` covers.
pub open spec fn window_start_of(s: SessionIndex) -> SessionIndex {
    if s >= APPROVAL_SESSIONS - 1 {
        (s - (APPROVAL_SESSIONS - 1)) as SessionIndex
    } else {
        0
    }
}

/// Whether every session of `start..=end` is served at `block`.
pub open spec fn sessions_available(rt: RuntimeModel, block: BlockHash, start: SessionIndex,
    end: SessionIndex) -> bool {
    forall|i: SessionIndex| start <= i <= end
        ==> #[trigger] rt.sessions.contains_key((block, i))
}

/// The information of sessions `start..=end` as served at `block`.
pub open spec fn loaded_sessions(rt: RuntimeModel, block: BlockHash, start: SessionIndex,
    end: SessionIndex) -> Seq<SessionInfo> {
    Seq::new((end - start + 1) as nat, |j: int| rt.sessions[(block, (start + j) as SessionIndex)])
}

/// The range of sessions an update for session `s` must fetch, given the
/// window's current earliest session and contents; `None` when the
/// window already covers `s` or a session at most as late.
pub open spec fn fetch_range(old_e: Option<SessionIndex>, old_infos: Seq<SessionInfo>,
    s: SessionIndex) -> Option<(SessionIndex, SessionIndex)> {
    match old_e {
        None => Some((window_start_of(s), s)),
        Some(e) => {
            let latest = (e + old_infos.len() - 1) as SessionIndex;
            if s <= latest {
                None
            } else if latest < window_start_of(s) {
                Some((window_start_of(s), s))
            } else {
                Some(((latest + 1) as SessionIndex, s))
            }
        }
    }
}

/// The earliest session and contents of the window after a successful
/// update for session `s`. An update that only rolls keeps the overlap
/// of the old window and appends the freshly loaded tail.
pub open spec fn window_update(old_e: Option<SessionIndex>, old_infos: Seq<SessionInfo>,
    rt: RuntimeModel, block: BlockHash, s: SessionIndex)
    -> (Option<SessionIndex>, Seq<SessionInfo>) {
    let ws = window_start_of(s);
    match old_e {
        None => (Some(ws), loaded_sessions(rt, block, ws, s)),
        Some(e) => {
            let latest = (e + old_infos.len() - 1) as SessionIndex;
            if s <= latest {
                (old_e, old_infos)
            } else if latest < ws {
                (Some(ws), loaded_sessions(rt, block, ws, s))
            } else {
                let keep_from = if ws >= e { ws } else { e };
                (Some(keep_from), old_infos.skip(keep_from - e) + loaded_sessions(rt, block,
                    (latest + 1) as SessionIndex, s))
            }
        }
    }
}

/// Round trip of window and head: when a head's session is no earlier
/// than everything the window covers, a successful update leaves the
/// window ending exactly at that session.
pub proof fn lemma_cache_round_trip(w: RollingSessionWindow, rt: RuntimeModel,
    block: BlockHash, s: SessionIndex)
    requires
        w.wf(),
        w.earliest_session matches Some(e) ==> s >= w.latest_spec()->Some_0,
    ensures
        match fetch_range(w.earliest_session, w.session_info@, s) {
            None => w.latest_spec() == Some(s),
            Some(range) => ({
                let u = window_update(w.earliest_session, w.session_info@, rt, block, s);
                &&& u.1.len() > 0
                &&& u.0 matches Some(ne)
                &&& u.0->Some_0 + u.1.len() - 1 == s
            }),
        },
{
    let ws = window_start_of(s);
    match w.earliest_session {
        None => {
            assert(loaded_sessions(rt, block, ws, s).len() == s - ws + 1);
        }
        Some(e) => {
            let latest = (e + w.session_info@.len() - 1) as SessionIndex;
            if s <= latest {
            } else if latest < ws {
                assert(loaded_sessions(rt, block, ws, s).len() == s - ws + 1);
            } else {
                let keep_from: SessionIndex = if ws >= e { ws } else { e };
                let u = window_update(w.earliest_session, w.session_info@, rt, block, s);
                assert(u.1.len() == (w.session_info@.len() - (keep_from - e))
                    + (s - latest));
            }
        }
    }
}

/// A jump past the whole window: when the new head's session starts a
/// window beyond the current latest session, the update fetches exactly
/// the full new range and the window afterwards covers exactly
/// `window_start_of(s) ..= s`.
pub proof fn lemma_window_jump(w: RollingSessionWindow, rt: RuntimeModel, block: BlockHash,
    s: SessionIndex)
    requires
        w.wf(),
        w.earliest_session matches Some(e),
        w.latest_spec()->Some_0 < window_start_of(s),
    ensures
        fetch_range(w.earliest_session, w.session_info@, s) == Some((window_start_of(s), s)),
        ({
            let u = window_update(w.earliest_session, w.session_info@, rt, block, s);
            &&& u.0 == Some(window_start_of(s))
            &&& u.1.len() == s - window_start_of(s) + 1
            &&& u.1 == loaded_sessions(rt, block, window_start_of(s), s)
        }),
{
    assert(loaded_sessions(rt, block, window_start_of(s), s).len()
        == s - window_start_of(s) + 1);
}

/// A gradual roll: when the new head's session overlaps the window, the
/// update fetches only the sessions beyond the current latest, and the
/// window afterwards still ends at the head's session.
pub proof fn lemma_window_roll(w: RollingSessionWindow, rt: RuntimeModel, block: BlockHash,
    s: SessionIndex)
    requires
        w.wf(),
        w.earliest_session matches Some(e),
        s > w.latest_spec()->Some_0,
        window_start_of(s) <= w.latest_spec()->Some_0,
    ensures
        fetch_range(w.earliest_session, w.session_info@, s)
            == Some(((w.latest_spec()->Some_0 + 1) as SessionIndex, s)),
        ({
            let u = window_update(w.earliest_session, w.session_info@, rt, block, s);
            u.0->Some_0 + u.1.len() - 1 == s
        }),
{
    lemma_cache_round_trip(w, rt, block, s);
}

/// Idempotence: a second update for a head in the same or an earlier
/// session finds the window already covering it and changes nothing.
pub proof fn lemma_cache_idempotent(w: RollingSessionWindow, rt: RuntimeModel,
    block: BlockHash, s: SessionIndex, s2: SessionIndex)
    requires
        w.wf(),
        w.earliest_session matches Some(e) ==> s >= w.latest_spec()->Some_0,
        fetch_range(w.earliest_session, w.session_info@, s) is Some,
        s2 <= s,
    ensures
        ({
            let u = window_update(w.earliest_session, w.session_info@, rt, block, s);
            fetch_range(u.0, u.1, s2) is None
        }),
{
    lemma_cache_round_trip(w, rt, block, s);
}

/// Loads the information of every session `start..=end` as served at
/// `block_hash`; `None` as soon as one of them is unavailable.
pub fn load_all_sessions<R: RuntimeApi>(runtime: &R, block_hash: BlockHash,
    start: SessionIndex, end_inclusive: SessionIndex) -> (r: Option<Vec<SessionInfo>>)
    requires
        runtime.inv(),
        start <= end_inclusive,
    ensures
        r is Some <==> sessions_available(runtime.model(), block_hash, start, end_inclusive),
        r matches Some(v) ==> v@ == loaded_sessions(runtime.model(), block_hash, start,
            end_inclusive),
{
    let ghost rt = runtime.model();
    let count: u64 = (end_inclusive - start) as u64 + 1;
    let mut v: Vec<SessionInfo> = Vec::new();
    let mut j: u64 = 0;
    while j < count
        invariant
            runtime.inv(),
            rt == runtime.model(),
            start <= end_inclusive,
            count == end_inclusive - start + 1,
            j <= count,
            v@.len() == j,
            forall|i: SessionIndex| start <= i && i < start + j
                ==> #[trigger] rt.sessions.contains_key((block_hash, i)),
            forall|i: SessionIndex| start <= i && i < start + j
                ==> v@[i - start] == #[trigger] rt.sessions[(block_hash, i)],
        decreases count - j,
    {
        let index: SessionIndex = start + (j as u32);
        match runtime.session_info(block_hash, index) {
            None => {
                proof {
                    assert(!rt.sessions.contains_key((block_hash, index)));
                    assert(start <= index <= end_inclusive);
                    assert(!sessions_available(rt, block_hash, start, end_inclusive));
                }
                return None;
            }
            Some(info) => {
                v.push(info);
            }
        }
        j = j + 1;
    }
    proof {
        assert forall|q: int| 0 <= q < count
            implies v@[q] == loaded_sessions(rt, block_hash, start, end_inclusive)[q] by {
            let i = (start + q) as SessionIndex;
            assert(rt.sessions.contains_key((block_hash, i)));
            assert(v@[i - start] == rt.sessions[(block_hash, i)]);
        }
        assert(v@ =~= loaded_sessions(rt, block_hash, start, end_inclusive));
    }
    Some(v)
}

/// Brings the session window up to date for a new head.
///
/// The session governing the head is looked up at the parent's state
/// (at the head's own state for genesis). A head in an already covered
/// or earlier session leaves the window unchanged. Otherwise the missing
/// sessions are loaded — all of them for a first fill or a jump past the
/// window, only the tail beyond the current latest when the ranges
/// overlap — and the window rolls forward to end at the head's session.
/// If the session index or any needed session cannot be obtained the
/// window is left untouched and the update fails.
pub fn cache_session_info_for_head<R: RuntimeApi>(runtime: &R,
    window: &mut RollingSessionWindow, block_hash: BlockHash, block_header: &Header)
    -> (r: Result<(), SessionsUnavailable>)
    requires
        runtime.inv(),
        old(window).wf(),
    ensures
        final(window).wf(),
        r is Err ==> final(window).earliest_session == old(window).earliest_session
            && final(window).session_info@ == old(window).session_info@,
        !runtime.model().session_index.contains_key(query_hash(block_hash, *block_header))
            ==> r is Err,
        runtime.model().session_index.contains_key(query_hash(block_hash, *block_header))
            ==> {
            let s = runtime.model().session_index[query_hash(block_hash, *block_header)];
            match fetch_range(old(window).earliest_session, old(window).session_info@, s) {
                None => r is Ok && final(window).earliest_session
                    == old(window).earliest_session && final(window).session_info@
                    == old(window).session_info@,
                Some(range) => {
                    &&& (sessions_available(runtime.model(), block_hash, range.0, range.1)
                        ==> r is Ok
                        && (final(window).earliest_session, final(window).session_info@)
                            == window_update(old(window).earliest_session,
                            old(window).session_info@, runtime.model(), block_hash, s))
                    &&& (!sessions_available(runtime.model(), block_hash, range.0, range.1)
                        ==> r is Err)
                },
            }
        },
{
    let query = if block_header.number == 0 {
        block_hash
    } else {
        block_header.parent_hash
    };

    let session_index = match runtime.session_index_for_child(query) {
        None => {
            return Err(SessionsUnavailable);
        }
        Some(s) => s,
    };

    let window_start: SessionIndex = if session_index >= APPROVAL_SESSIONS - 1 {
        session_index - (APPROVAL_SESSIONS - 1)
    } else {
        0
    };

    match window.earliest_session {
        None => {
            // First head since startup: fill the whole window.
            match load_all_sessions(runtime, block_hash, window_start, session_index) {
                None => Err(SessionsUnavailable),
                Some(loaded) => {
                    window.earliest_session = Some(window_start);
                    window.session_info = loaded;
                    Ok(())
                }
            }
        }
        Some(old_start) => {
            let len_u32: u32 = window.session_info.len() as u32;
            let latest: SessionIndex = old_start + (len_u32 - 1);

            // Cached already, or acceptable backwards drift: no change.
            if session_index <= latest {
                return Ok(());
            }

            if latest < window_start {
                // No overlap: replace the window wholesale.
                match load_all_sessions(runtime, block_hash, window_start, session_index) {
                    None => Err(SessionsUnavailable),
                    Some(loaded) => {
                        window.earliest_session = Some(window_start);
                        window.session_info = loaded;
                        Ok(())
                    }
                }
            } else {
                // Overlap: fetch only the missing tail, drop the prefix
                // that falls out of the new window.
                match load_all_sessions(runtime, block_hash, latest + 1, session_index) {
                    None => Err(SessionsUnavailable),
                    Some(loaded) => {
                        let keep_from: u32 = if window_start >= old_start {
                            window_start
                        } else {
                            old_start
                        };
                        let overlap: usize = (keep_from - old_start) as usize;
                        let mut kept: Vec<SessionInfo> = Vec::new();
                        let mut i: usize = overlap;
                        while i < window.session_info.len()
                            invariant
                                overlap <= i <= window.session_info@.len(),
                                kept@ =~= window.session_info@.subrange(overlap as int,
                                    i as int),
                            decreases window.session_info@.len() - i,
                        {
                            kept.push(window.session_info[i]);
                            i = i + 1;
                        }
                        let mut j: usize = 0;
                        while j < loaded.len()
                            invariant
                                j <= loaded@.len(),
                                kept@ =~= window.session_info@.subrange(overlap as int,
                                    window.session_info@.len() as int) + loaded@.take(
                                    j as int),
                            decreases loaded@.len() - j,
                        {
                            kept.push(loaded[j]);
                            j = j + 1;
                        }
                        proof {
                            assert(loaded@.take(loaded@.len() as int) =~= loaded@);
                            assert(window.session_info@.subrange(overlap as int,
                                window.session_info@.len() as int)
                                =~= window.session_info@.skip(overlap as int));
                        }
                        window.earliest_session = Some(keep_from);
                        window.session_info = kept;
                        Ok(())
                    }
                }
            }
        }
    }
}

} // verus!
