//! Framing of a byte stream
//!
//! Messages travel COBS-encoded over byte streams, so a frame never holds a
//! zero byte but ends with one. A receiver gathers bytes and takes frames
//! off the front of what it gathered.

use vstd::prelude::*;

verus! {

/// The position of the first zero byte of `s`, if it has one
pub open spec fn first_zero(s: Seq<u8>) -> Option<int>
    decreases s.len(),
{
    if s.len() == 0 {
        None
    } else if s[0] == 0 {
        Some(0)
    } else {
        match first_zero(s.drop_first()) {
            Some(i) => Some(i + 1),
            None => None,
        }
    }
}

/// `first_zero` is the first position holding a zero byte, or `None` where
/// none does
pub proof fn lemma_first_zero(s: Seq<u8>, i: int)
    requires
        0 <= i <= s.len(),
        forall|j: int| 0 <= j < i ==> s[j] != 0,
        i < s.len() ==> s[i] == 0,
    ensures
        first_zero(s) == (if i < s.len() {
            Some(i)
        } else {
            None::<int>
        }),
    decreases s.len(),
{
    if s.len() > 0 && i > 0 {
        let rest = s.drop_first();
        assert forall|j: int| 0 <= j < i - 1 implies rest[j] != 0 by {
            assert(rest[j] == s[j + 1]);
        }
        lemma_first_zero(rest, i - 1);
    }
}

/// Take the first complete frame, its closing zero byte included, off the
/// front of `pending`; `None`, and `pending` unchanged, where no frame is
/// complete yet
pub fn take_frame(pending: &mut Vec<u8>) -> (r: Option<Vec<u8>>)
    ensures
        match first_zero(old(pending)@) {
            None => r is None && final(pending)@ == old(pending)@,
            Some(p) => r matches Some(f) && f@ == old(pending)@.subrange(0, p + 1)
                && final(pending)@ == old(pending)@.subrange(p + 1, old(pending)@.len() as int),
        },
        r matches Some(f) ==> f@ + final(pending)@ == old(pending)@ && f@.len() > 0 && f@.last()
            == 0 && forall|j: int| 0 <= j < f@.len() - 1 ==> f@[j] != 0,
{
    let n = pending.len();
    let mut p: usize = 0;
    while p < n && pending[p] != 0
        invariant
            n == pending@.len(),
            p <= n,
            forall|j: int| 0 <= j < p ==> pending@[j] != 0,
        decreases n - p,
    {
        p = p + 1;
    }
    proof {
        lemma_first_zero(pending@, p as int);
    }
    if p == n {
        return None;
    }
    let mut frame: Vec<u8> = Vec::new();
    let mut rest: Vec<u8> = Vec::new();
    let mut i: usize = 0;
    while i < n
        invariant
            n == pending@.len(),
            p < n,
            i <= n,
            i <= p + 1 ==> frame@ == pending@.subrange(0, i as int) && rest@.len() == 0,
            i > p + 1 ==> frame@ == pending@.subrange(0, p + 1) && rest@ == pending@.subrange(
                p + 1,
                i as int,
            ),
        decreases n - i,
    {
        if i <= p {
            frame.push(pending[i]);
        } else {
            rest.push(pending[i]);
        }
        i = i + 1;
        proof {
            if i <= p + 1 {
                assert(frame@ =~= pending@.subrange(0, i as int));
            } else {
                assert(rest@ =~= pending@.subrange(p + 1, i as int));
            }
        }
    }
    proof {
        if n == p + 1 {
            assert(rest@ =~= pending@.subrange(p + 1, n as int));
        }
    }
    proof {
        assert(frame@ + rest@ =~= pending@);
    }
    *pending = rest;
    Some(frame)
}

} // verus!
