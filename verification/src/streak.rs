//! The streak counter: the longest contiguous run of one byte inside a
//! fragment, with a carry-in so a run split across fragment boundaries
//! is still counted as one. Code-span fences are sized from it.

use vstd::prelude::*;

verus! {

/// The larger of two naturals.
pub open spec fn nat_max(a: nat, b: nat) -> nat {
    if a >= b {
        a
    } else {
        b
    }
}

/// One left-to-right scan of `s`, counting runs of `ch`: `best` is the
/// longest run seen so far, `cur` the length of the run still open.
/// Returns the longest run observed anywhere (the open run included)
/// and the length of the run still open at the end.
pub open spec fn streak_scan(s: Seq<u8>, ch: u8, best: nat, cur: nat) -> (nat, nat)
    decreases s.len(),
{
    if s.len() == 0 {
        (nat_max(best, cur), cur)
    } else if s[0] == ch {
        streak_scan(s.drop_first(), ch, best, cur + 1)
    } else {
        streak_scan(s.drop_first(), ch, nat_max(best, cur), 0)
    }
}

/// The longest run of `ch` anywhere in `carry ++ s`, and the length of
/// the run still open at the end of `s`.
pub open spec fn max_streak(s: Seq<u8>, ch: u8, carry: nat) -> (nat, nat) {
    streak_scan(s, ch, 0, carry)
}

/// The length of the run of `ch` that `s` begins with.
pub open spec fn lead_run(s: Seq<u8>, ch: u8) -> nat
    decreases s.len(),
{
    if s.len() == 0 {
        0
    } else if s[0] == ch {
        1 + lead_run(s.drop_first(), ch)
    } else {
        0
    }
}

/// `i` starts a run of exactly `len` copies of `ch` in `s`: the run is
/// bounded by the ends of `s` or by a byte other than `ch`.
pub open spec fn run_at(s: Seq<u8>, ch: u8, i: int, len: int) -> bool {
    &&& 0 <= i
    &&& i + len <= s.len()
    &&& forall|k: int| i <= k < i + len ==> s[k] == ch
}

/// The reported maximum never falls below the best run already seen
/// nor below the run still open.
proof fn lemma_scan_ge(s: Seq<u8>, ch: u8, best: nat, cur: nat)
    ensures
        streak_scan(s, ch, best, cur).0 >= best,
        streak_scan(s, ch, best, cur).0 >= cur,
    decreases s.len(),
{
    if s.len() > 0 {
        if s[0] == ch {
            lemma_scan_ge(s.drop_first(), ch, best, cur + 1);
        } else {
            lemma_scan_ge(s.drop_first(), ch, nat_max(best, cur), 0);
        }
    }
}

/// The reported maximum covers the run that crosses the carry
/// boundary: the open run extended by the leading run of `s`.
proof fn lemma_scan_ge_lead(s: Seq<u8>, ch: u8, best: nat, cur: nat)
    ensures
        streak_scan(s, ch, best, cur).0 >= cur + lead_run(s, ch),
    decreases s.len(),
{
    if s.len() > 0 {
        if s[0] == ch {
            lemma_scan_ge_lead(s.drop_first(), ch, best, cur + 1);
        } else {
            lemma_scan_ge(s.drop_first(), ch, nat_max(best, cur), 0);
        }
    }
}

/// The leading run is a run: it fits in `s`, holds only `ch`, and is
/// maximal at its right end.
proof fn lemma_lead_run(s: Seq<u8>, ch: u8)
    ensures
        lead_run(s, ch) <= s.len(),
        forall|k: int| 0 <= k < lead_run(s, ch) ==> s[k] == ch,
        lead_run(s, ch) == s.len() || s[lead_run(s, ch) as int] != ch,
    decreases s.len(),
{
    if s.len() > 0 && s[0] == ch {
        lemma_lead_run(s.drop_first(), ch);
        assert forall|k: int| 0 <= k < lead_run(s, ch) implies s[k] == ch by {
            if k > 0 {
                assert(s.drop_first()[k - 1] == s[k]);
            }
        }
    }
}

/// No run of `ch` inside `s` is longer than the reported maximum.
proof fn lemma_scan_run_bound(s: Seq<u8>, ch: u8, best: nat, cur: nat, i: int, len: int)
    requires
        run_at(s, ch, i, len),
    ensures
        len <= streak_scan(s, ch, best, cur).0,
    decreases s.len(),
{
    if len <= 0 {
    } else if i == 0 {
        lemma_lead_run(s, ch);
        assert(len <= lead_run(s, ch));
        lemma_scan_ge_lead(s, ch, best, cur);
    } else {
        let t = s.drop_first();
        assert forall|k: int| i - 1 <= k < i - 1 + len implies t[k] == ch by {
            assert(t[k] == s[k + 1]);
        }
        assert(run_at(t, ch, i - 1, len));
        if s[0] == ch {
            lemma_scan_run_bound(t, ch, best, cur + 1, i - 1, len);
        } else {
            lemma_scan_run_bound(t, ch, nat_max(best, cur), 0, i - 1, len);
        }
    }
}

/// The reported maximum is witnessed: it is the best run already
/// seen, or the open run extended by the leading run, or a run that
/// stands wholly inside `s`.
proof fn lemma_scan_witness(s: Seq<u8>, ch: u8, best: nat, cur: nat)
    ensures
        ({
            let m = streak_scan(s, ch, best, cur).0;
            m == best || m == cur + lead_run(s, ch) || exists|i: int|
                run_at(s, ch, i, m as int)
        }),
    decreases s.len(),
{
    let m = streak_scan(s, ch, best, cur).0;
    if s.len() == 0 {
    } else {
        let t = s.drop_first();
        if s[0] == ch {
            lemma_scan_witness(t, ch, best, cur + 1);
            if m == best || m == cur + lead_run(s, ch) {
            } else {
                let i = choose|i: int| run_at(t, ch, i, m as int);
                assert forall|k: int| i + 1 <= k < i + 1 + m implies s[k] == ch by {
                    assert(t[k - 1] == s[k]);
                }
                assert(run_at(s, ch, i + 1, m as int));
            }
        } else {
            lemma_scan_witness(t, ch, nat_max(best, cur), 0);
            if m == nat_max(best, cur) {
                assert(m == best || m == cur + lead_run(s, ch));
            } else if m == lead_run(t, ch) {
                lemma_lead_run(t, ch);
                assert forall|k: int| 1 <= k < 1 + m implies s[k] == ch by {
                    assert(t[k - 1] == s[k]);
                }
                assert(run_at(s, ch, 1, m as int));
            } else {
                let i = choose|i: int| run_at(t, ch, i, m as int);
                assert forall|k: int| i + 1 <= k < i + 1 + m implies s[k] == ch by {
                    assert(t[k - 1] == s[k]);
                }
                assert(run_at(s, ch, i + 1, m as int));
            }
        }
    }
}

/// The streak counter is exact: no run of `ch` in `s` is longer than
/// the reported maximum, and unless that maximum is zero some run in
/// `s` has exactly that length. So the maximum is precisely the
/// length of the longest run of `ch` in `s`.
pub proof fn lemma_max_streak_exact(s: Seq<u8>, ch: u8)
    ensures
        forall|i: int, len: int| run_at(s, ch, i, len) ==> len <= max_streak(s, ch, 0).0,
        max_streak(s, ch, 0).0 == 0 || exists|i: int|
            run_at(s, ch, i, max_streak(s, ch, 0).0 as int),
{
    let m = max_streak(s, ch, 0).0;
    assert forall|i: int, len: int| run_at(s, ch, i, len) implies len <= m by {
        lemma_scan_run_bound(s, ch, 0, 0, i, len);
    }
    lemma_scan_witness(s, ch, 0, 0);
    if m != 0 {
        if m == lead_run(s, ch) {
            lemma_lead_run(s, ch);
            assert(run_at(s, ch, 0, m as int));
        }
    }
}

/// Counts runs of `ch` in `data`, starting from an open run of length
/// `carry` carried in from a previously scanned fragment.
pub fn count_streak(data: &[u8], ch: u8, carry: usize) -> (r: (usize, usize))
    requires
        carry + data@.len() <= usize::MAX,
    ensures
        (r.0 as nat, r.1 as nat) == max_streak(data@, ch, carry as nat),
{
    let n = data.len();
    let mut best: usize = 0;
    let mut cur: usize = carry;
    proof {
        assert(data@.skip(0) =~= data@);
    }
    for i in 0..n
        invariant
            n == data@.len(),
            carry + n <= usize::MAX,
            cur <= carry + i,
            best <= carry + i,
            streak_scan(data@, ch, 0, carry as nat) == streak_scan(
                data@.skip(i as int),
                ch,
                best as nat,
                cur as nat,
            ),
    {
        proof {
            assert(data@.skip(i as int).drop_first() =~= data@.skip(i + 1));
            assert(data@.skip(i as int)[0] == data@[i as int]);
        }
        if data[i] == ch {
            cur = cur + 1;
        } else {
            if cur > best {
                best = cur;
            }
            cur = 0;
        }
    }
    proof {
        assert(data@.skip(n as int) =~= Seq::<u8>::empty());
    }
    if cur > best {
        best = cur;
    }
    (best, cur)
}

} // verus!
