use vstd::prelude::*;
use crate::block::{flatten, BlockView};
use crate::controller::{fresh, next_state, surfaced, ControllerView, FAILURE_LIMIT};
use crate::decode::{decoded, read_chunk};
use crate::failure::Failure;
use crate::frame::{
    comma_trimmed, frame_of, last_frame, last_index_before, trailing_zeroes_trimmed, Framing, CLOSE,
    COMMA, OPEN,
};

verus! {

/// `n` null bytes.
pub open spec fn zeroes(n: nat) -> Seq<u8> {
    Seq::new(n, |i: int| 0u8)
}

/// A single comma where `present`, else nothing.
pub open spec fn comma_if(present: bool) -> Seq<u8> {
    if present {
        seq![COMMA]
    } else {
        Seq::empty()
    }
}

/// `a` reads as one array literal: it opens with `[` and closes with `]`.
pub open spec fn is_array_literal(a: Seq<u8>) -> bool {
    a.len() > 0 && a[0] == OPEN && a.last() == CLOSE
}

/// No `[` stands in `a` but the first byte.
pub open spec fn opens_once(a: Seq<u8>) -> bool {
    forall|i: int| 0 < i < a.len() ==> a[i] != OPEN
}

/// What a framing needs of an array to find it again: any array literal for
/// trimming; for the bracket scan, also no `[` inside it.
pub open spec fn framable(framing: Framing, a: Seq<u8>) -> bool {
    is_array_literal(a) && (framing == Framing::LastBracket ==> opens_once(a))
}

/// The state after a run of failures from `s`, oldest first.
pub open spec fn after_failures(s: ControllerView, causes: Seq<Failure>) -> ControllerView
    decreases causes.len(),
{
    if causes.len() == 0 {
        s
    } else {
        next_state(after_failures(s, causes.drop_last()), Some(causes.last()))
    }
}

proof fn lemma_zeroes_trimmed(x: Seq<u8>, n: nat)
    requires
        x.len() > 0,
        x.last() != 0,
    ensures
        trailing_zeroes_trimmed(x + zeroes(n)) == x,
    decreases n,
{
    if n == 0 {
        assert(x + zeroes(0) =~= x);
    } else {
        assert((x + zeroes(n)).drop_last() =~= x + zeroes((n - 1) as nat));
        lemma_zeroes_trimmed(x, (n - 1) as nat);
    }
}

proof fn lemma_last_index_at(d: Seq<u8>, c: u8, e: int, end: int)
    requires
        0 <= e < end <= d.len(),
        d[e] == c,
        forall|j: int| e < j < end ==> d[j] != c,
    ensures
        last_index_before(d, c, end) == Some(e),
    decreases end,
{
    if d[end - 1] != c {
        lemma_last_index_at(d, c, e, end - 1);
    }
}

proof fn lemma_no_index(d: Seq<u8>, c: u8, end: int)
    requires
        0 <= end <= d.len(),
        forall|j: int| 0 <= j < end ==> d[j] != c,
    ensures
        last_index_before(d, c, end) is None,
    decreases end,
{
    if end > 0 {
        lemma_no_index(d, c, end - 1);
    }
}

/// A chunk made of an array with at most one comma before it, at most one
/// comma after it and any null padding after that gives the array again.
pub proof fn lemma_comma_frame_recovered(framing: Framing, a: Seq<u8>, lead: bool, trail: bool, n: nat)
    requires
        framable(framing, a),
    ensures
        frame_of(framing, comma_if(lead) + a + comma_if(trail) + zeroes(n)) == Ok::<Seq<u8>, Failure>(a),
        read_chunk(framing, comma_if(lead) + a + comma_if(trail) + zeroes(n)) == decoded(a),
{
    let p = comma_if(lead);
    let q = comma_if(trail);
    let x = p + a + q;
    let d = x + zeroes(n);
    match framing {
        Framing::Trim => {
            lemma_zeroes_trimmed(x, n);
            if lead {
                assert(x.drop_first() =~= a + q);
            } else {
                assert(x =~= a + q);
            }
            if trail {
                assert((a + q).drop_last() =~= a);
            } else {
                assert(a + q =~= a);
            }
        },
        Framing::LastBracket => {
            let e = p.len() + a.len() - 1;
            assert(d[e] == CLOSE);
            assert forall|j: int| e < j < d.len() implies d[j] != CLOSE by {
                if j < x.len() {
                    assert(trail && d[j] == COMMA);
                } else {
                    assert(d[j] == zeroes(n)[j - x.len()]);
                }
            }
            lemma_last_index_at(d, CLOSE, e, d.len() as int);
            let s = p.len() as int;
            assert(d[s] == a[0]);
            assert forall|j: int| s < j < e implies d[j] != OPEN by {
                assert(d[j] == a[j - s]);
            }
            lemma_last_index_at(d, OPEN, s, e);
            assert(d.subrange(s, e + 1) =~= a);
        },
    }
}

/// A chunk made of an array and any null padding after it gives the array,
/// so its blocks and its display line, again.
pub proof fn lemma_padded_frame_recovered(framing: Framing, a: Seq<u8>, n: nat)
    requires
        framable(framing, a),
    ensures
        read_chunk(framing, a + zeroes(n)) == decoded(a),
        forall|bs: Seq<BlockView>| decoded(a) == Ok::<Seq<BlockView>, Failure>(bs) ==> match read_chunk(framing, a + zeroes(n)) {
            Ok(got) => flatten(got) == flatten(bs),
            Err(_) => false,
        },
{
    lemma_comma_frame_recovered(framing, a, false, false, n);
    assert(comma_if(false) + a + comma_if(false) =~= a);
}

proof fn lemma_zeroes_vanish(n: nat)
    ensures
        trailing_zeroes_trimmed(zeroes(n)).len() == 0,
    decreases n,
{
    if n > 0 {
        assert(zeroes(n).drop_last() =~= zeroes((n - 1) as nat));
        lemma_zeroes_vanish((n - 1) as nat);
    }
}

/// An empty chunk, or one of null bytes alone, gives no frame.
pub proof fn lemma_padding_only_fails(framing: Framing, n: nat)
    ensures
        read_chunk(framing, zeroes(n)) == Err::<Seq<BlockView>, Failure>(Failure::FrameNotFound),
{
    match framing {
        Framing::Trim => {
            lemma_zeroes_vanish(n);
        },
        Framing::LastBracket => {
            lemma_no_index(zeroes(n), CLOSE, n as int);
        },
    }
}

/// Of two arrays sent back to back, the bracket scan takes the later one.
pub proof fn lemma_last_frame_wins(first: Seq<u8>, second: Seq<u8>, n: nat)
    requires
        framable(Framing::LastBracket, second),
    ensures
        last_frame(first + second + zeroes(n)) == Some(second),
{
    let x = first + second;
    let d = x + zeroes(n);
    let e = x.len() - 1;
    assert(d[e] == CLOSE);
    assert forall|j: int| e < j < d.len() implies d[j] != CLOSE by {
        assert(d[j] == zeroes(n)[j - x.len()]);
    }
    lemma_last_index_at(d, CLOSE, e, d.len() as int);
    let s = first.len() as int;
    assert forall|j: int| s < j < e implies d[j] != OPEN by {
        assert(d[j] == second[j - s]);
    }
    lemma_last_index_at(d, OPEN, s, e);
    assert(d.subrange(s, e + 1) =~= second);
}

/// The display line keeps the order of the blocks: the line of two lists
/// sent one after the other is the first's line followed by the second's.
pub proof fn lemma_flatten_append(xs: Seq<BlockView>, ys: Seq<BlockView>)
    ensures
        flatten(xs + ys) == flatten(xs) + flatten(ys),
    decreases ys.len(),
{
    if ys.len() == 0 {
        assert(xs + ys =~= xs);
        assert(flatten(xs) + flatten(ys) =~= flatten(xs));
    } else {
        assert((xs + ys).drop_last() =~= xs + ys.drop_last());
        lemma_flatten_append(xs, ys.drop_last());
        assert(flatten(xs + ys) =~= flatten(xs) + flatten(ys));
    }
}

proof fn lemma_streak_held(causes: Seq<Failure>)
    requires
        causes.len() < FAILURE_LIMIT,
    ensures
        after_failures(fresh(), causes) == (causes, false),
    decreases causes.len(),
{
    if causes.len() > 0 {
        lemma_streak_held(causes.drop_last());
        assert(causes.drop_last().push(causes.last()) =~= causes);
    } else {
        assert(causes =~= Seq::<Failure>::empty());
    }
}

/// A streak of failures shorter than the limit is kept in full, gives up
/// nothing on the way, and one success then clears it.
pub proof fn lemma_short_streak_recovers(causes: Seq<Failure>)
    requires
        causes.len() < FAILURE_LIMIT,
    ensures
        after_failures(fresh(), causes) == (causes, false),
        forall|j: int| 0 <= j < causes.len() ==> surfaced(after_failures(fresh(), #[trigger] causes.take(j)), Some(causes[j])) is None,
        next_state(after_failures(fresh(), causes), None) == fresh(),
{
    lemma_streak_held(causes);
    assert forall|j: int| 0 <= j < causes.len() implies surfaced(after_failures(fresh(), #[trigger] causes.take(j)), Some(causes[j])) is None by {
        lemma_streak_held(causes.take(j));
    }
}

/// A streak of as many failures as the limit gives up the feed on its last
/// failure and not before, hands out all of them, and after that no event
/// changes the state or hands out anything.
pub proof fn lemma_full_streak_aborts_once(causes: Seq<Failure>, later: Option<Failure>)
    requires
        causes.len() == FAILURE_LIMIT,
    ensures
        forall|j: int| 0 <= j < causes.len() - 1 ==> surfaced(after_failures(fresh(), #[trigger] causes.take(j)), Some(causes[j])) is None,
        surfaced(after_failures(fresh(), causes.drop_last()), Some(causes.last())) == Some(causes),
        after_failures(fresh(), causes) == (Seq::<Failure>::empty(), true),
        surfaced(after_failures(fresh(), causes), later) is None,
        next_state(after_failures(fresh(), causes), later) == after_failures(fresh(), causes),
{
    lemma_streak_held(causes.drop_last());
    assert(causes.drop_last().push(causes.last()) =~= causes);
    assert forall|j: int| 0 <= j < causes.len() - 1 implies surfaced(after_failures(fresh(), #[trigger] causes.take(j)), Some(causes[j])) is None by {
        lemma_streak_held(causes.take(j));
    }
}

} // verus!
