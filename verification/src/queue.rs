use vstd::prelude::*;

use crate::driver::{
    lemma_kept_by_enter, requests_kept, extends, queue_safe, queued, op_safe, requests_own, run_safe, same_shape, AesDriver, DriverView,
};
use crate::error::ErrorCode;
use crate::grant::{app_of, entered, enter_error, has_app, AppView, EntryView, ProcessId};
use crate::hil::{AesEngine, HwCall};
use crate::setup::{load_error, loaded, run_post};

verus! {

/// Slot `e` with its queued request taken.
pub open spec fn taken(e: EntryView) -> EntryView {
    EntryView {
        grant: Some(AppView { pending_run_app: None, ..e.grant->Some_0 }),
        ..e
    }
}

/// Slot `u` is slot `e`, or `e`'s queued request taken and nothing else
/// changed.
pub open spec fn slot_kept(e: EntryView, u: EntryView) -> bool {
    u == e || (queued(e) && u == taken(e))
}

/// The requests taken from `s` to `t` are the queued ones of a prefix of
/// the process table; the slots after it are unchanged.
#[verifier::opaque]
pub open spec fn taken_prefix(s: Seq<EntryView>, t: Seq<EntryView>, c: int) -> bool {
    &&& 0 <= c <= s.len()
    &&& forall|j: int| 0 <= j < c ==> !queued(#[trigger] t[j])
    &&& forall|j: int| c <= j < s.len() ==> #[trigger] t[j] == s[j]
}

/// A search that left `q` the owner took the requests up to its slot and
/// left the slots after it unchanged.
pub open spec fn owner_last(s: Seq<EntryView>, t: Seq<EntryView>, q: ProcessId) -> bool {
    &&& q.id < s.len()
    &&& taken_prefix(s, t, q.id + 1)
}

/// Between records `old` and `new` the hardware refused to start a block
/// operation and reported success.
pub open spec fn refused_with_success(old: Seq<HwCall>, new: Seq<HwCall>) -> bool {
    exists|i: int|
        old.len() <= i < new.len() && #[trigger] new[i] matches HwCall::Crypt {
            refused: Some((Ok(()), _, _)),
            ..
        }
}

/// What looking for a queued request keeps and changes, from `s` to `t`.
pub open spec fn check_queue_frame(s: DriverView, t: DriverView) -> bool {
    let n = s.procs.len();
    &&& extends(s.log, t.log)
    &&& t.upcalls == s.upcalls
    &&& t.active == s.active
    &&& t.procs.len() == n
    &&& forall|j: int|
        #![trigger t.procs[j]]
        0 <= j < n ==> slot_kept(s.procs[j], t.procs[j])
    &&& requests_own(t.procs)
    // With an owner, nothing happens.
    &&& s.appid is Some ==> t == s
    // With nothing queued, nothing happens.
    &&& (forall|j: int| 0 <= j < n ==> !queued(#[trigger] s.procs[j])) ==> t == s
    // The search goes on until an owner is left or no request is queued,
    // unless the hardware refused a start and reported success.
    &&& t.appid is None ==> (forall|j: int| 0 <= j < n ==> !queued(#[trigger] t.procs[j]))
        || refused_with_success(s.log, t.log)
    // The requests taken are those of a prefix of the table; requests
    // after it keep waiting.
    &&& exists|c: int| taken_prefix(s.procs, t.procs, c)
    // A new owner is the last request taken.
    &&& s.appid is None && t.appid is Some ==> owner_last(s.procs, t.procs, t.appid->Some_0)
    // Only a queued request becomes the owner.
    &&& s.appid is None && t.appid is Some ==> exists|j: int|
        0 <= j < n && queued(#[trigger] s.procs[j]) && s.procs[j].grant->Some_0.pending_run_app
            == t.appid
    // Without an owner, the first queued request is taken and started.
    &&& forall|k: int|
        #![trigger s.procs[k]]
        0 <= k < n && s.appid is None && queued(s.procs[k]) && (forall|j: int|
            0 <= j < k ==> !queued(#[trigger] s.procs[j])) ==> {
            &&& t.procs[k].grant->Some_0.pending_run_app is None
            &&& t.log.len() > s.log.len()
            &&& t.log[s.log.len() as int] == HwCall::Enable
        }
}

/// The state in which the request queued in slot `i` of `s` is started:
/// the request taken, and the process that queued it the owner.
pub open spec fn queued_start(s: DriverView, i: int) -> DriverView {
    DriverView {
        procs: s.procs.update(i, taken(s.procs[i])),
        appid: s.procs[i].grant->Some_0.pending_run_app,
        ..s
    }
}

/// What looking for a queued request from slot `i` on (of `n`) does, from
/// `s` to `t`, slot by slot: with an owner the search stops; a queued
/// request is taken and started (`run_post` from `queued_start`); a start
/// that succeeded ends the search, one that failed lets it go on from the
/// next slot.
#[verifier::opaque]
pub open spec fn search(s: DriverView, t: DriverView, i: int, n: int) -> bool
    decreases n - i,
{
    if i < 0 || i >= n || i >= s.procs.len() {
        t == s
    } else {
        let e = s.procs[i];
        if !(e.alive && e.grant is Some) {
            search(s, t, i + 1, n)
        } else if s.appid is Some {
            t == s
        } else if !queued(e) {
            search(s, t, i + 1, n)
        } else {
            exists|m: DriverView, r: Result<(), ErrorCode>|
                {
                    &&& run_post(queued_start(s, i), m, r)
                    &&& if r is Ok {
                        t == m
                    } else {
                        search(m, t, i + 1, n)
                    }
                }
        }
    }
}

/// What looking for a queued request does, from `s` to `t`: the search
/// over the whole table (`search`), with what it keeps and changes
/// (`check_queue_frame`).
#[verifier::opaque]
pub open spec fn check_queue_post(s: DriverView, t: DriverView) -> bool {
    &&& check_queue_frame(s, t)
    &&& search(s, t, 0, s.procs.len() as int)
}

/// One slot of the search, as `start_queued` does it.
pub proof fn lemma_search_step(s: DriverView, t: DriverView, i: int, n: int, stop: bool)
    requires
        0 <= i < n,
        n == s.procs.len(),
        start_queued_post(s, t, i, stop),
    ensures
        stop ==> search(s, t, i, n),
        !stop ==> forall|u: DriverView|
            #[trigger] search(t, u, i + 1, n) ==> search(s, u, i, n),
{
    reveal(search);
    reveal(started);
    let e = s.procs[i];
    if e.alive && e.grant is Some && s.appid is None && queued(e) {
        let r = choose|r: Result<(), ErrorCode>|
            run_post(queued_start(s, i), t, r) && (stop <==> r is Ok);
        if stop {
            assert(run_post(queued_start(s, i), t, r) && t == t);
        } else {
            assert forall|u: DriverView| #[trigger] search(t, u, i + 1, n) implies search(
                s,
                u,
                i,
                n,
            ) by {
                assert(run_post(queued_start(s, i), t, r) && search(t, u, i + 1, n));
            }
        }
    }
}

/// The request queued in slot `i` of `s` was started, leading to `t`; the
/// search stops when the start succeeded.
#[verifier::opaque]
pub open spec fn started(s: DriverView, t: DriverView, i: int, stop: bool) -> bool {
    exists|r: Result<(), ErrorCode>| run_post(queued_start(s, i), t, r) && (stop <==> r is Ok)
}

/// What looking at slot `i` for a queued request does, from `s` to `t`.
pub open spec fn start_queued_post(
    s: DriverView,
    t: DriverView,
    i: int,
    stop: bool,
) -> bool {
    let e = s.procs[i];
    &&& extends(s.log, t.log)
    &&& t.upcalls == s.upcalls
    &&& t.active == s.active
    &&& t.procs.len() == s.procs.len()
    &&& forall|j: int|
        #![trigger t.procs[j]]
        0 <= j < s.procs.len() && j != i ==> t.procs[j] == s.procs[j]
    &&& slot_kept(e, t.procs[i])
    &&& requests_own(t.procs)
    &&& if !(e.alive && e.grant is Some) {
        !stop && t == s
    } else if s.appid is Some {
        stop && t == s
    } else if !queued(e) {
        !stop && t == s
    } else {
        &&& t.procs[i].grant->Some_0.pending_run_app is None
        &&& t.log.len() > s.log.len()
        &&& t.log[s.log.len() as int] == HwCall::Enable
        &&& t.appid is Some ==> t.appid == e.grant->Some_0.pending_run_app
        &&& stop && t.appid is None ==> refused_with_success(s.log, t.log)
        &&& started(s, t, i, stop)
        &&& !stop && t.appid is None ==> {
            &&& same_shape(s.source_buffer, t.source_buffer)
            &&& same_shape(s.dest_buffer, t.dest_buffer)
        }
    }
}

/// Starting a queued request of a process that holds its grant leaves the
/// process table as it was; a start that failed and released the owner
/// returned the static buffers as they were held.
pub proof fn lemma_run_queued(
    s: DriverView,
    t: DriverView,
    r: Result<(), ErrorCode>,
    p: ProcessId,
)
    requires
        s.appid == Some(p),
        has_app(s.procs, p),
        run_safe(s, p),
        run_post(s, t, r),
    ensures
        t.procs == s.procs,
        extends(s.log, t.log),
        t.log.len() > s.log.len(),
        t.log[s.log.len() as int] == HwCall::Enable,
        t.appid is Some ==> t.appid == Some(p),
        r is Ok && t.appid is None ==> refused_with_success(s.log, t.log),
        r is Err && t.appid is None ==> {
            &&& same_shape(s.source_buffer, t.source_buffer)
            &&& same_shape(s.dest_buffer, t.dest_buffer)
        },
{
    broadcast use crate::bytes::lemma_stage_len;

    assert(t.log.len() > s.log.len());
    let a = app_of(t.procs, p);
    if a.aes_operation is Some && r is Err && t.appid is None {
        let sb = s.source_buffer;
        let db = s.dest_buffer;
        let ccm = a.aes_operation->Some_0 is AES128CCM;
        assert(load_error(sb, a.key) is None);
        let b1 = loaded(sb, a.key);
        assert(b1.len() == sb->Some_0.len());
        assert(load_error(Some(b1), a.iv) is None);
        let b2 = loaded(Some(b1), a.iv);
        assert(b2.len() == sb->Some_0.len());
        let target = if ccm {
            db
        } else {
            Some(b2)
        };
        assert(load_error(target, a.source) is None);
        assert(loaded(target, a.source).len() == target->Some_0.len());
    }
    if r is Ok && t.appid is None {
        let i = t.log.len() - 2;
        assert(t.log[i] matches HwCall::Crypt { refused: Some((Ok(()), _, _)), .. });
        assert(s.log.len() <= i);
    }
}

/// A start that failed keeps the requests and the shape of the static
/// buffers.
pub proof fn lemma_run_failed(s: DriverView, t: DriverView, r: Result<(), ErrorCode>)
    requires
        s.appid is Some,
        run_safe(s, s.appid->Some_0),
        run_post(s, t, r),
        r is Err,
    ensures
        requests_kept(s.procs, t.procs),
        same_shape(s.source_buffer, t.source_buffer),
        same_shape(s.dest_buffer, t.dest_buffer),
        extends(s.log, t.log),
        t.upcalls == s.upcalls,
        t.active == s.active,
{
    broadcast use crate::bytes::lemma_stage_len;

    let p = s.appid->Some_0;
    lemma_kept_by_enter(s.procs, p);
    if enter_error(s.procs, p) is None {
        let a = app_of(entered(s.procs, p), p);
        if a.aes_operation is Some {
            let sb = s.source_buffer;
            let db = s.dest_buffer;
            let ccm = a.aes_operation->Some_0 is AES128CCM;
            if load_error(sb, a.key) is None {
                let b1 = loaded(sb, a.key);
                assert(b1.len() == sb->Some_0.len());
                if load_error(Some(b1), a.iv) is None {
                    let b2 = loaded(Some(b1), a.iv);
                    assert(b2.len() == sb->Some_0.len());
                    let target = if ccm {
                        db
                    } else {
                        Some(b2)
                    };
                    if load_error(target, a.source) is None {
                        assert(loaded(target, a.source).len() == target->Some_0.len());
                    }
                }
            }
        }
    }
}

/// Nothing taken is the empty prefix.
pub proof fn lemma_prefix_none(s: Seq<EntryView>)
    ensures
        taken_prefix(s, s, 0),
{
    reveal(taken_prefix);
}

/// A table with no request queued left took the whole table.
pub proof fn lemma_prefix_all(s: Seq<EntryView>, t: Seq<EntryView>)
    requires
        t.len() == s.len(),
        forall|j: int| 0 <= j < t.len() ==> !queued(#[trigger] t[j]),
    ensures
        taken_prefix(s, t, s.len() as int),
{
    reveal(taken_prefix);
}

/// Taking slot `i` after the slots before it extends the prefix by one.
pub proof fn lemma_prefix_step(s: Seq<EntryView>, u: Seq<EntryView>, i: int)
    requires
        0 <= i < s.len(),
        u.len() == s.len(),
        forall|j: int| 0 <= j < i ==> !queued(#[trigger] u[j]),
        !queued(u[i]),
        forall|j: int| i < j < s.len() ==> #[trigger] u[j] == s[j],
    ensures
        taken_prefix(s, u, i + 1),
{
    reveal(taken_prefix);
}

/// What holds after slots `0..i` have been looked at, from `s` to `t`.
#[verifier::opaque]
pub open spec fn scan_inv(s: DriverView, t: DriverView, i: int) -> bool {
    let n = s.procs.len();
    &&& 0 <= i <= n
    &&& extends(s.log, t.log)
    &&& t.procs.len() == n
    &&& t.upcalls == s.upcalls
    &&& t.active == s.active
    &&& requests_own(t.procs)
    &&& requests_own(s.procs)
    &&& forall|j: int|
        #![trigger t.procs[j]]
        0 <= j < n ==> slot_kept(s.procs[j], t.procs[j])
    &&& forall|j: int|
        #![trigger t.procs[j]]
        i <= j < n ==> t.procs[j] == s.procs[j]
    &&& s.appid is Some ==> t == s
    &&& s.appid is None ==> queue_safe(s.procs, s.source_buffer, s.dest_buffer)
    &&& t.appid is None ==> {
        &&& forall|j: int| 0 <= j < i ==> !queued(#[trigger] t.procs[j])
        &&& same_shape(s.source_buffer, t.source_buffer)
        &&& same_shape(s.dest_buffer, t.dest_buffer)
    }
    &&& (forall|j: int| 0 <= j < i ==> !queued(#[trigger] s.procs[j])) ==> t == s
    &&& s.appid is None && t.appid is Some ==> exists|j: int|
        0 <= j < n && queued(#[trigger] s.procs[j]) && s.procs[j].grant->Some_0.pending_run_app
            == t.appid
    &&& s.appid is None && t.appid is Some ==> {
        &&& owner_last(s.procs, t.procs, t.appid->Some_0)
        &&& t.appid->Some_0.id < i
    }
    &&& forall|k: int|
        #![trigger s.procs[k]]
        0 <= k < i && s.appid is None && queued(s.procs[k]) && (forall|j: int|
            0 <= j < k ==> !queued(#[trigger] s.procs[j])) ==> {
            &&& t.procs[k].grant->Some_0.pending_run_app is None
            &&& t.log.len() > s.log.len()
            &&& t.log[s.log.len() as int] == HwCall::Enable
        }
}

pub proof fn lemma_scan_start(s: DriverView)
    requires
        requests_own(s.procs),
        s.appid is None ==> queue_safe(s.procs, s.source_buffer, s.dest_buffer),
    ensures
        scan_inv(s, s, 0),
{
    reveal(scan_inv);
}

pub proof fn lemma_scan_pre(s: DriverView, t: DriverView, i: int)
    requires
        scan_inv(s, t, i),
        i < s.procs.len(),
    ensures
        i < t.procs.len(),
        t.procs.len() == s.procs.len(),
        requests_own(t.procs),
        t.appid is None && queued(t.procs[i]) ==> op_safe(
            t.procs[i].grant->Some_0,
            t.source_buffer,
            t.dest_buffer,
        ),
{
    reveal(scan_inv);
    if t.appid is None && queued(t.procs[i]) {
        assert(t.procs[i] == s.procs[i]);
        assert(queued(s.procs[i]));
    }
}

pub proof fn lemma_scan_step(
    s: DriverView,
    t: DriverView,
    u: DriverView,
    i: int,
    stop: bool,
)
    requires
        scan_inv(s, t, i),
        i < s.procs.len(),
        start_queued_post(t, u, i, stop),
    ensures
        !stop ==> scan_inv(s, u, i + 1),
        stop ==> check_queue_frame(s, u),
{
    reveal(scan_inv);
    let n = s.procs.len();
    let e = t.procs[i];
    assert(e == s.procs[i]);
    assert forall|j: int| 0 <= j < n implies slot_kept(
        s.procs[j],
        #[trigger] u.procs[j],
    ) by {
        if j != i {
            assert(u.procs[j] == t.procs[j]);
        }
    }
    assert forall|j: int| i + 1 <= j < n implies #[trigger] u.procs[j]
        == s.procs[j] by {
        assert(u.procs[j] == t.procs[j]);
    }
    if s.appid is Some {
        assert(u == s);
        lemma_prefix_none(s.procs);
    } else if t.appid is Some {
        // An earlier request left an owner: this slot stops the search or
        // is skipped, and nothing changes.
        assert(u == t);
        assert(taken_prefix(s.procs, u.procs, t.appid->Some_0.id + 1));
        assert forall|k: int|
            #![trigger s.procs[k]]
            0 <= k < n && queued(s.procs[k]) && (forall|j: int|
                0 <= j < k ==> !queued(#[trigger] s.procs[j])) implies {
            &&& u.procs[k].grant->Some_0.pending_run_app is None
            &&& u.log.len() > s.log.len()
            &&& u.log[s.log.len() as int] == HwCall::Enable
        } by {
            if k >= i {
                assert forall|j: int| 0 <= j < i implies !queued(
                    #[trigger] s.procs[j],
                ) by {
                    assert(j < k);
                }
                assert(t == s);
            }
        }
    } else if !(e.alive && e.grant is Some) || !queued(e) {
        assert(u == t);
        assert(!stop);
        assert forall|j: int| 0 <= j < i + 1 implies !queued(#[trigger] u.procs[j]) by {
            if j < i {
                assert(u.procs[j] == t.procs[j]);
            }
        }
        if forall|j: int| 0 <= j < i + 1 ==> !queued(#[trigger] s.procs[j]) {
            assert forall|j: int| 0 <= j < i implies !queued(#[trigger] s.procs[j]) by {
                assert(j < i + 1);
            }
            assert(t == s);
        }
    } else {
        assert(queued(s.procs[i]));
        assert(!(forall|j: int| 0 <= j < i + 1 ==> !queued(#[trigger] s.procs[j])));
        assert(u.appid is Some ==> queued(s.procs[i])
            && s.procs[i].grant->Some_0.pending_run_app == u.appid);
        assert forall|j: int| 0 <= j < i implies !queued(#[trigger] u.procs[j]) by {
            assert(u.procs[j] == t.procs[j]);
        }
        assert(!queued(u.procs[i]));
        lemma_prefix_step(s.procs, u.procs, i);
        assert(u.appid is Some ==> u.appid->Some_0.id == i);
        if u.appid is None {
            assert forall|j: int| 0 <= j < i + 1 implies !queued(#[trigger] u.procs[j]) by {
                if j < i {
                    assert(u.procs[j] == t.procs[j]);
                }
            }
        }
        assert forall|k: int|
            #![trigger s.procs[k]]
            0 <= k < i + 1 && s.appid is None && queued(s.procs[k]) && (forall|j: int|
                0 <= j < k ==> !queued(#[trigger] s.procs[j])) implies {
            &&& u.procs[k].grant->Some_0.pending_run_app is None
            &&& u.log.len() > s.log.len()
            &&& u.log[s.log.len() as int] == HwCall::Enable
        } by {
            if k < i {
                assert(u.procs[k] == t.procs[k]);
            } else {
                assert forall|j: int| 0 <= j < i implies !queued(
                    #[trigger] s.procs[j],
                ) by {
                    assert(j < k);
                }
                assert(t == s);
            }
        }
    }
}

pub proof fn lemma_scan_end(s: DriverView, t: DriverView)
    requires
        scan_inv(s, t, s.procs.len() as int),
    ensures
        check_queue_frame(s, t),
{
    reveal(scan_inv);
    if s.appid is Some {
        lemma_prefix_none(s.procs);
    } else if t.appid is Some {
        assert(taken_prefix(s.procs, t.procs, t.appid->Some_0.id + 1));
    } else {
        lemma_prefix_all(s.procs, t.procs);
    }
}

impl<H: AesEngine> AesDriver<H> {
    /// Looks at slot `i` while looking for a queued request: reports `true`
    /// when the search is over, because there is an owner or the request
    /// found there was started.
    fn start_queued(&mut self, i: usize) -> (stop: bool)
        requires
            i < old(self)@.procs.len(),
            requests_own(old(self)@.procs),
            old(self).appid is None && queued(old(self)@.procs[i as int]) ==> op_safe(
                old(self)@.procs[i as int].grant->Some_0,
                old(self)@.source_buffer,
                old(self)@.dest_buffer,
            ),
        ensures
            start_queued_post(old(self)@, final(self)@, i as int, stop),
    {
        if self.apps.procs[i].alive && self.apps.procs[i].grant.is_some() {
            if self.appid.is_some() {
                return true;
            }
            let ghost pre = self@;
            let pid = ProcessId { id: i };
            let mut app = self.apps.take_app(pid);
            let pending = app.pending_run_app.take();
            self.apps.put_app(pid, app);
            match pending {
                Some(p) => {
                    self.appid = Some(p);
                    let ghost mid = self@;
                    assert(mid.procs =~= queued_start(pre, i as int).procs);
                    assert(mid == queued_start(pre, i as int));
                    let r = self.run();
                    proof {
                        lemma_run_queued(mid, self@, r, p);
                    }
                    assert(run_post(queued_start(pre, i as int), self@, r));
                    proof {
                        reveal(started);
                    }
                    assert(started(pre, self@, i as int, r.is_ok()));
                    r.is_ok()
                },
                None => {
                    assert(self@.procs =~= pre.procs);
                    false
                },
            }
        } else {
            false
        }
    }

    /// With no owner, starts queued requests in process order until one is
    /// started or one leaves an owner behind.
    pub(crate) fn check_queue(&mut self)
        requires
            requests_own(old(self)@.procs),
            old(self).appid is None ==> queue_safe(
                old(self)@.procs,
                old(self)@.source_buffer,
                old(self)@.dest_buffer,
            ),
        ensures
            check_queue_post(old(self)@, final(self)@),
            requests_own(final(self)@.procs),
    {
        let ghost s = self@;
        let n = self.apps.procs.len();
        let mut i: usize = 0;
        proof {
            lemma_scan_start(s);
        }
        loop
            invariant_except_break
                scan_inv(s, self@, i as int),
                forall|u: DriverView|
                    #[trigger] search(self@, u, i as int, n as int) ==> search(s, u, 0, n as int),
            invariant
                i <= n,
                n == s.procs.len(),
            ensures
                check_queue_post(s, self@),
            decreases n - i,
        {
            if i >= n {
                proof {
                    lemma_scan_end(s, self@);
                    reveal(search);
                    reveal(check_queue_post);
                    assert(search(self@, self@, i as int, n as int));
                }
                break ;
            }
            proof {
                lemma_scan_pre(s, self@, i as int);
            }
            let ghost pre = self@;
            let stop = self.start_queued(i);
            proof {
                lemma_scan_step(s, pre, self@, i as int, stop);
                lemma_search_step(pre, self@, i as int, n as int, stop);
                if !stop {
                    assert forall|u: DriverView|
                        #[trigger] search(self@, u, i + 1, n as int) implies search(
                        s,
                        u,
                        0,
                        n as int,
                    ) by {
                        assert(search(pre, u, i as int, n as int));
                    }
                }
            }
            if stop {
                proof {
                    reveal(check_queue_post);
                }
                break ;
            }
            i = i + 1;
        }
        proof {
            reveal(check_queue_post);
        }
    }
}

} // verus!
