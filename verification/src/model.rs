//! Mathematical model of compound-duration formatting.
//!
//! A duration string is specified in two layers. `dec_str` gives the decimal
//! digit sequence of a natural number. `terms_of` decomposes a value against
//! a unit ladder (a descending sequence of `(size, label)` pairs) into the
//! emitted terms, and `render_terms` concatenates them into the final
//! character sequence. The laws at the bottom state that the decomposition
//! is exact and well-ordered.

use vstd::prelude::*;
use vstd::seq_lib::lemma_concat_associative;

verus! {

/// The decimal digit character for a value below ten.
pub open spec fn digit_char(d: nat) -> char {
    if d == 0 {
        '0'
    } else if d == 1 {
        '1'
    } else if d == 2 {
        '2'
    } else if d == 3 {
        '3'
    } else if d == 4 {
        '4'
    } else if d == 5 {
        '5'
    } else if d == 6 {
        '6'
    } else if d == 7 {
        '7'
    } else if d == 8 {
        '8'
    } else {
        '9'
    }
}

/// The decimal representation of `n`: no leading zeros, no separators.
pub open spec fn dec_str(n: nat) -> Seq<char>
    decreases n,
{
    if n < 10 {
        seq![digit_char(n)]
    } else {
        dec_str(n / 10).push(digit_char(n % 10))
    }
}

/// One rendered unit term: the decimal count followed by the unit label,
/// or nothing at all when the count is zero.
pub open spec fn term_str(count: nat, label: Seq<char>) -> Seq<char> {
    if count == 0 {
        Seq::empty()
    } else {
        dec_str(count) + label
    }
}

/// A unit ladder entry pairs a unit's size (its magnitude in the base unit)
/// with its printed label.
pub type Rung = (nat, Seq<char>);

/// An emitted term: a non-zero count together with the size and label of the
/// unit it counts.
pub type Term = (nat, nat, Seq<char>);

/// A well-formed ladder is non-empty, strictly descending in size, and ends
/// with the base unit of size one.
pub open spec fn ladder_wf(ladder: Seq<Rung>) -> bool {
    &&& ladder.len() > 0
    &&& ladder.last().0 == 1
    &&& sizes_descending(ladder)
}

/// The terms emitted for `value` against `ladder`: repeated division and
/// remainder down the ladder, keeping only the rungs with a non-zero count.
pub open spec fn terms_of(value: nat, ladder: Seq<Rung>) -> Seq<Term>
    decreases ladder.len(),
{
    if ladder.len() == 0 {
        Seq::empty()
    } else {
        let count = value / ladder[0].0;
        let rest = terms_of(value % ladder[0].0, ladder.drop_first());
        if count == 0 {
            rest
        } else {
            seq![(count, ladder[0].0, ladder[0].1)] + rest
        }
    }
}

/// Concatenates the rendered terms: each count in decimal, immediately
/// followed by its label, with no separators.
pub open spec fn render_terms(terms: Seq<Term>) -> Seq<char>
    decreases terms.len(),
{
    if terms.len() == 0 {
        Seq::empty()
    } else {
        dec_str(terms[0].0) + terms[0].2 + render_terms(terms.drop_first())
    }
}

/// The full output for `value` against `ladder`: the fixed zero string
/// (`0` followed by the smallest unit's label) for zero, otherwise the
/// concatenation of the emitted terms.
pub open spec fn format_spec(value: nat, ladder: Seq<Rung>) -> Seq<char> {
    if value == 0 {
        seq!['0'] + ladder.last().1
    } else {
        render_terms(terms_of(value, ladder))
    }
}

/// The ladder of `format_dhms`: days, hours, minutes, seconds, over seconds.
pub open spec fn dhms_ladder() -> Seq<Rung> {
    seq![
        (86_400 as nat, "d"@),
        (3_600 as nat, "h"@),
        (60 as nat, "m"@),
        (1 as nat, "s"@),
    ]
}

/// The ladder of `format_wdhms`: weeks, days, hours, minutes, seconds, over
/// seconds.
pub open spec fn wdhms_ladder() -> Seq<Rung> {
    seq![
        (604_800 as nat, "w"@),
        (86_400 as nat, "d"@),
        (3_600 as nat, "h"@),
        (60 as nat, "m"@),
        (1 as nat, "s"@),
    ]
}

/// The ladder of `format_ns`: days, hours, minutes, seconds, milliseconds,
/// microseconds, nanoseconds, over nanoseconds.
pub open spec fn ns_ladder() -> Seq<Rung> {
    seq![
        (86_400_000_000_000 as nat, "d"@),
        (3_600_000_000_000 as nat, "h"@),
        (60_000_000_000 as nat, "m"@),
        (1_000_000_000 as nat, "s"@),
        (1_000_000 as nat, "ms"@),
        (1_000 as nat, "\u{b5}s"@),
        (1 as nat, "ns"@),
    ]
}

/// The sum of count times size over a sequence of terms.
pub open spec fn terms_sum(terms: Seq<Term>) -> nat
    decreases terms.len(),
{
    if terms.len() == 0 {
        0
    } else {
        terms[0].0 * terms[0].1 + terms_sum(terms.drop_first())
    }
}

/// The remainder left after dividing `value` down the whole ladder.
pub open spec fn chain_rem(value: nat, ladder: Seq<Rung>) -> nat
    decreases ladder.len(),
{
    if ladder.len() == 0 {
        value
    } else {
        chain_rem(value % ladder[0].0, ladder.drop_first())
    }
}

/// Whether `t` carries the size and label of one of `ladder`'s rungs.
pub open spec fn is_rung_of(t: Term, ladder: Seq<Rung>) -> bool {
    exists|i: int| 0 <= i < ladder.len() && t.1 == ladder[i].0 && t.2 == ladder[i].1
}

/// All rungs of a ladder have positive size.
pub open spec fn sizes_pos(ladder: Seq<Rung>) -> bool {
    forall|i: int| 0 <= i < ladder.len() ==> ladder[i].0 > 0
}

/// Rung sizes are strictly descending down the ladder.
pub open spec fn sizes_descending(ladder: Seq<Rung>) -> bool {
    forall|i: int, j: int| 0 <= i < j < ladder.len() ==> ladder[i].0 > ladder[j].0
}

/// Peels one rung off the rendering: the output for `value` is the first
/// rung's term followed by the output of the remainder against the rest of
/// the ladder.
pub proof fn lemma_render_unfold(value: nat, ladder: Seq<Rung>)
    requires
        ladder.len() > 0,
        ladder[0].0 > 0,
    ensures
        render_terms(terms_of(value, ladder)) == term_str(value / ladder[0].0, ladder[0].1)
            + render_terms(terms_of(value % ladder[0].0, ladder.drop_first())),
{
    let count = value / ladder[0].0;
    let rest = terms_of(value % ladder[0].0, ladder.drop_first());
    if count == 0 {
        assert(terms_of(value, ladder) == rest);
        assert(term_str(count, ladder[0].1) + render_terms(rest) =~= render_terms(rest));
    } else {
        let ts = seq![(count, ladder[0].0, ladder[0].1)] + rest;
        assert(terms_of(value, ladder) == ts);
        assert(ts.drop_first() =~= rest);
        assert(render_terms(ts) == dec_str(count) + ladder[0].1 + render_terms(rest));
        assert(dec_str(count) + ladder[0].1 + render_terms(rest) =~= term_str(count, ladder[0].1)
            + render_terms(rest));
    }
}

/// The output for a non-zero `v` against the day/hour/minute/second ladder,
/// written out as the four place-value terms.
pub proof fn lemma_dhms_render(v: nat)
    ensures
        render_terms(terms_of(v, dhms_ladder())) == term_str(v / 86_400, "d"@)
            + term_str(v % 86_400 / 3_600, "h"@) + term_str(v % 86_400 % 3_600 / 60, "m"@)
            + term_str(v % 86_400 % 3_600 % 60, "s"@),
{
    let l0 = dhms_ladder();
    let l1: Seq<Rung> = seq![(3_600 as nat, "h"@), (60 as nat, "m"@), (1 as nat, "s"@)];
    let l2: Seq<Rung> = seq![(60 as nat, "m"@), (1 as nat, "s"@)];
    let l3: Seq<Rung> = seq![(1 as nat, "s"@)];
    assert(l0.drop_first() =~= l1);
    assert(l1.drop_first() =~= l2);
    assert(l2.drop_first() =~= l3);
    assert(l3.drop_first() =~= Seq::<Rung>::empty());
    lemma_render_unfold(v, l0);
    let v1 = v % 86_400;
    lemma_render_unfold(v1, l1);
    let v2 = v1 % 3_600;
    lemma_render_unfold(v2, l2);
    let v3 = v2 % 60;
    lemma_render_unfold(v3, l3);
    assert(terms_of(v3 % 1, Seq::<Rung>::empty()) == Seq::<Term>::empty());
    assert(v3 / 1 == v3) by (nonlinear_arith);
    assert(render_terms(terms_of(v, l0)) =~= term_str(v / 86_400, "d"@) + term_str(
        v1 / 3_600,
        "h"@,
    ) + term_str(v2 / 60, "m"@) + term_str(v3, "s"@));
}

/// The output for a non-zero `v` against the week/day/hour/minute/second
/// ladder, written out as the five place-value terms.
pub proof fn lemma_wdhms_render(v: nat)
    ensures
        render_terms(terms_of(v, wdhms_ladder())) == term_str(v / 604_800, "w"@)
            + term_str(v % 604_800 / 86_400, "d"@) + term_str(v % 604_800 % 86_400 / 3_600, "h"@)
            + term_str(v % 604_800 % 86_400 % 3_600 / 60, "m"@)
            + term_str(v % 604_800 % 86_400 % 3_600 % 60, "s"@),
{
    let l0 = wdhms_ladder();
    let l1: Seq<Rung> = seq![
        (86_400 as nat, "d"@),
        (3_600 as nat, "h"@),
        (60 as nat, "m"@),
        (1 as nat, "s"@),
    ];
    assert(l0.drop_first() =~= l1);
    assert(l1 =~= dhms_ladder());
    lemma_render_unfold(v, l0);
    let v1 = v % 604_800;
    lemma_dhms_render(v1);
    assert(render_terms(terms_of(v, l0)) =~= term_str(v / 604_800, "w"@) + term_str(
        v1 / 86_400,
        "d"@,
    ) + term_str(v1 % 86_400 / 3_600, "h"@) + term_str(v1 % 86_400 % 3_600 / 60, "m"@) + term_str(
        v1 % 86_400 % 3_600 % 60,
        "s"@,
    ));
}

/// Flattens a right-nested concatenation of seven character sequences into
/// the left-nested form in which an output buffer is built up.
proof fn lemma_chain7(
    a: Seq<char>,
    b: Seq<char>,
    c: Seq<char>,
    d: Seq<char>,
    e: Seq<char>,
    f: Seq<char>,
    g: Seq<char>,
)
    ensures
        a + (b + (c + (d + (e + (f + g))))) == a + b + c + d + e + f + g,
{
    lemma_concat_associative(a, b, c + (d + (e + (f + g))));
    lemma_concat_associative(a + b, c, d + (e + (f + g)));
    lemma_concat_associative(a + b + c, d, e + (f + g));
    lemma_concat_associative(a + b + c + d, e, f + g);
    lemma_concat_associative(a + b + c + d + e, f, g);
}

/// The output for a non-zero `v` against the nanosecond ladder, written out
/// as the seven place-value terms.
pub proof fn lemma_ns_render(v: nat)
    ensures
        render_terms(terms_of(v, ns_ladder())) == term_str(v / 86_400_000_000_000, "d"@)
            + term_str(v % 86_400_000_000_000 / 3_600_000_000_000, "h"@)
            + term_str(v % 86_400_000_000_000 % 3_600_000_000_000 / 60_000_000_000, "m"@)
            + term_str(
            v % 86_400_000_000_000 % 3_600_000_000_000 % 60_000_000_000 / 1_000_000_000,
            "s"@,
        ) + term_str(
            v % 86_400_000_000_000 % 3_600_000_000_000 % 60_000_000_000 % 1_000_000_000
                / 1_000_000,
            "ms"@,
        ) + term_str(
            v % 86_400_000_000_000 % 3_600_000_000_000 % 60_000_000_000 % 1_000_000_000 % 1_000_000
                / 1_000,
            "\u{b5}s"@,
        ) + term_str(
            v % 86_400_000_000_000 % 3_600_000_000_000 % 60_000_000_000 % 1_000_000_000 % 1_000_000
                % 1_000,
            "ns"@,
        ),
{
    let l0 = ns_ladder();
    let l1: Seq<Rung> = seq![
        (3_600_000_000_000 as nat, "h"@),
        (60_000_000_000 as nat, "m"@),
        (1_000_000_000 as nat, "s"@),
        (1_000_000 as nat, "ms"@),
        (1_000 as nat, "\u{b5}s"@),
        (1 as nat, "ns"@),
    ];
    let l2: Seq<Rung> = seq![
        (60_000_000_000 as nat, "m"@),
        (1_000_000_000 as nat, "s"@),
        (1_000_000 as nat, "ms"@),
        (1_000 as nat, "\u{b5}s"@),
        (1 as nat, "ns"@),
    ];
    let l3: Seq<Rung> = seq![
        (1_000_000_000 as nat, "s"@),
        (1_000_000 as nat, "ms"@),
        (1_000 as nat, "\u{b5}s"@),
        (1 as nat, "ns"@),
    ];
    let l4: Seq<Rung> = seq![(1_000_000 as nat, "ms"@), (1_000 as nat, "\u{b5}s"@), (1 as nat, "ns"@)];
    let l5: Seq<Rung> = seq![(1_000 as nat, "\u{b5}s"@), (1 as nat, "ns"@)];
    let l6: Seq<Rung> = seq![(1 as nat, "ns"@)];
    assert(l0.drop_first() =~= l1);
    assert(l1.drop_first() =~= l2);
    assert(l2.drop_first() =~= l3);
    assert(l3.drop_first() =~= l4);
    assert(l4.drop_first() =~= l5);
    assert(l5.drop_first() =~= l6);
    assert(l6.drop_first() =~= Seq::<Rung>::empty());
    lemma_render_unfold(v, l0);
    let v1 = v % 86_400_000_000_000;
    lemma_render_unfold(v1, l1);
    let v2 = v1 % 3_600_000_000_000;
    lemma_render_unfold(v2, l2);
    let v3 = v2 % 60_000_000_000;
    lemma_render_unfold(v3, l3);
    let v4 = v3 % 1_000_000_000;
    lemma_render_unfold(v4, l4);
    let v5 = v4 % 1_000_000;
    lemma_render_unfold(v5, l5);
    let v6 = v5 % 1_000;
    lemma_render_unfold(v6, l6);
    assert(terms_of(v6 % 1, Seq::<Rung>::empty()) == Seq::<Term>::empty());
    assert(v6 / 1 == v6) by (nonlinear_arith);
    let a = term_str(v / 86_400_000_000_000, "d"@);
    let b = term_str(v1 / 3_600_000_000_000, "h"@);
    let c = term_str(v2 / 60_000_000_000, "m"@);
    let d = term_str(v3 / 1_000_000_000, "s"@);
    let e = term_str(v4 / 1_000_000, "ms"@);
    let f = term_str(v5 / 1_000, "\u{b5}s"@);
    let g = term_str(v6, "ns"@);
    assert(g + Seq::<char>::empty() =~= g);
    assert(render_terms(terms_of(v, l0)) == a + (b + (c + (d + (e + (f + g))))));
    lemma_chain7(a, b, c, d, e, f, g);
}

/// The emitted terms account for all of `value` except the final remainder
/// left at the bottom of the ladder.
proof fn lemma_terms_sum_rem(value: nat, ladder: Seq<Rung>)
    requires
        sizes_pos(ladder),
    ensures
        terms_sum(terms_of(value, ladder)) + chain_rem(value, ladder) == value,
    decreases ladder.len(),
{
    if ladder.len() == 0 {
        assert(terms_of(value, ladder) == Seq::<Term>::empty());
    } else {
        let s0 = ladder[0].0;
        let count = value / s0;
        let r = value % s0;
        let rest = ladder.drop_first();
        assert forall|i: int| 0 <= i < rest.len() implies rest[i].0 > 0 by {
            assert(rest[i] == ladder[i + 1]);
        }
        lemma_terms_sum_rem(r, rest);
        vstd::arithmetic::div_mod::lemma_fundamental_div_mod(value as int, s0 as int);
        assert(chain_rem(value, ladder) == chain_rem(r, rest));
        if count == 0 {
            assert(terms_of(value, ladder) == terms_of(r, rest));
        } else {
            let ts = seq![(count, s0, ladder[0].1)] + terms_of(r, rest);
            assert(terms_of(value, ladder) == ts);
            assert(ts.drop_first() =~= terms_of(r, rest));
            assert(terms_sum(ts) == count * s0 + terms_sum(terms_of(r, rest)));
        }
    }
}

/// A ladder that ends in the base unit of size one leaves no remainder.
proof fn lemma_chain_rem_zero(value: nat, ladder: Seq<Rung>)
    requires
        sizes_pos(ladder),
        ladder.len() > 0,
        ladder.last().0 == 1,
    ensures
        chain_rem(value, ladder) == 0,
    decreases ladder.len(),
{
    let r = value % ladder[0].0;
    let rest = ladder.drop_first();
    if ladder.len() == 1 {
        assert(ladder[0].0 == 1);
        assert(r == 0) by (nonlinear_arith)
            requires r == value % ladder[0].0 && ladder[0].0 == 1;
        assert(chain_rem(value, ladder) == chain_rem(r, rest));
        assert(chain_rem(r, rest) == r);
    } else {
        assert forall|i: int| 0 <= i < rest.len() implies rest[i].0 > 0 by {
            assert(rest[i] == ladder[i + 1]);
        }
        assert(rest.last() == ladder.last());
        lemma_chain_rem_zero(r, rest);
    }
}

/// Exactness: summing count times size over the emitted terms reconstructs
/// the input value exactly.
pub proof fn lemma_terms_reconstruct(value: nat, ladder: Seq<Rung>)
    requires
        ladder_wf(ladder),
    ensures
        terms_sum(terms_of(value, ladder)) == value,
{
    assert forall|i: int| 0 <= i < ladder.len() implies ladder[i].0 > 0 by {
        if i < ladder.len() - 1 {
            assert(ladder[i].0 > ladder[ladder.len() - 1].0);
        }
    }
    lemma_terms_sum_rem(value, ladder);
    lemma_chain_rem_zero(value, ladder);
}

/// Well-ordered output: every emitted term has a non-zero count, the terms
/// stand in strictly descending unit size (so no unit appears twice), and
/// each term carries the size and label of one of the ladder's rungs.
pub proof fn lemma_terms_well_formed(value: nat, ladder: Seq<Rung>)
    requires
        sizes_pos(ladder),
        sizes_descending(ladder),
    ensures
        forall|k: int| 0 <= k < terms_of(value, ladder).len() ==> terms_of(value, ladder)[k].0 > 0,
        forall|k: int, l: int|
            0 <= k < l < terms_of(value, ladder).len() ==> terms_of(value, ladder)[k].1
                > terms_of(value, ladder)[l].1,
        forall|k: int|
            0 <= k < terms_of(value, ladder).len() ==> is_rung_of(terms_of(value, ladder)[k], ladder),
    decreases ladder.len(),
{
    if ladder.len() == 0 {
        assert(terms_of(value, ladder) == Seq::<Term>::empty());
    } else {
        let s0 = ladder[0].0;
        let count = value / s0;
        let r = value % s0;
        let rest = ladder.drop_first();
        assert forall|i: int| 0 <= i < rest.len() implies rest[i].0 > 0 by {
            assert(rest[i] == ladder[i + 1]);
        }
        assert forall|i: int, j: int| 0 <= i < j < rest.len() implies rest[i].0 > rest[j].0 by {
            assert(rest[i] == ladder[i + 1]);
            assert(rest[j] == ladder[j + 1]);
        }
        lemma_terms_well_formed(r, rest);
        let rts = terms_of(r, rest);
        assert forall|k: int| 0 <= k < rts.len() implies is_rung_of(rts[k], ladder) && rts[k].1
            < s0 by {
            let i = choose|i: int|
                0 <= i < rest.len() && rts[k].1 == rest[i].0 && rts[k].2 == rest[i].1;
            assert(rest[i] == ladder[i + 1]);
            assert(0 <= i + 1 < ladder.len() && rts[k].1 == ladder[i + 1].0 && rts[k].2 == ladder[i
                + 1].1);
            assert(ladder[0].0 > ladder[i + 1].0);
        }
        if count == 0 {
            assert(terms_of(value, ladder) == rts);
        } else {
            let ts = seq![(count, s0, ladder[0].1)] + rts;
            assert(terms_of(value, ladder) == ts);
            assert(ts[0] == (count, s0, ladder[0].1));
            assert(forall|k: int| 1 <= k < ts.len() ==> ts[k] == rts[k - 1]);
            assert(is_rung_of(ts[0], ladder)) by {
                assert(0 <= 0 < ladder.len() && ts[0].1 == ladder[0].0 && ts[0].2 == ladder[0].1);
            }
        }
    }
}

/// The day/hour/minute/second ladder is a well-formed unit ladder.
pub proof fn lemma_dhms_ladder_wf()
    ensures
        ladder_wf(dhms_ladder()),
        sizes_pos(dhms_ladder()),
{
    let l = dhms_ladder();
    assert(l[0].0 == 86_400 && l[1].0 == 3_600 && l[2].0 == 60 && l[3].0 == 1);
}

/// The week/day/hour/minute/second ladder is a well-formed unit ladder.
pub proof fn lemma_wdhms_ladder_wf()
    ensures
        ladder_wf(wdhms_ladder()),
        sizes_pos(wdhms_ladder()),
{
    let l = wdhms_ladder();
    assert(l[0].0 == 604_800 && l[1].0 == 86_400 && l[2].0 == 3_600 && l[3].0 == 60 && l[4].0
        == 1);
}

/// The nanosecond ladder is a well-formed unit ladder.
pub proof fn lemma_ns_ladder_wf()
    ensures
        ladder_wf(ns_ladder()),
        sizes_pos(ns_ladder()),
{
    let l = ns_ladder();
    assert(l[0].0 == 86_400_000_000_000 && l[1].0 == 3_600_000_000_000 && l[2].0 == 60_000_000_000
        && l[3].0 == 1_000_000_000 && l[4].0 == 1_000_000 && l[5].0 == 1_000 && l[6].0 == 1);
}

} // verus!
