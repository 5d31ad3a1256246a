//! Laws of the classification engine, proved once and for all: how whole
//! lines classify, what the flag tables may and may not contribute, and
//! that classification is a function of its inputs.

use vstd::prelude::*;
use crate::classify::ClassificationResult;
use crate::classify::ClassifyError;
use crate::descriptor::DescriptorView;
use crate::classify::classify_line_spec;
use crate::classify::classify_tokens;
use crate::classify::find_capture;
use crate::classify::is_any_flag;
use crate::classify::result_agrees;
use crate::classify::values_for;
use crate::descriptor::CaptureFlagView;
use crate::descriptor::capture_name;
use crate::tokenize::is_space;
use crate::tokenize::lemma_split_ws_all_space;
use crate::tokenize::lemma_split_ws_leading_word;
use crate::tokenize::lemma_split_ws_single_word;
use crate::tokenize::split_ws;

verus! {

/// A word that can stand as one token of a line: non-empty and free of
/// whitespace.
pub open spec fn word(w: Seq<char>) -> bool {
    w.len() > 0 && (forall|k: int| 0 <= k < w.len() ==> !is_space(w[k]))
}

/// Whether `reg` matches `cmd` to the descriptor at position `i`: that
/// descriptor claims `cmd` as a command name and no earlier one does.
pub open spec fn matched_at(reg: Seq<DescriptorView>, i: int, cmd: Seq<char>) -> bool {
    &&& 0 <= i < reg.len()
    &&& reg[i].commands.contains(cmd)
    &&& forall|k: int| 0 <= k < i ==> !reg[k].commands.contains(cmd)
}

proof fn lemma_plain_tokens(toks: Seq<Seq<char>>, d: DescriptorView)
    requires
        forall|k: int| 0 <= k < toks.len() ==> !is_any_flag(d, toks[k]),
    ensures
        classify_tokens(toks, d).0 == toks,
        classify_tokens(toks, d).1 == Seq::<(Seq<char>, Seq<char>)>::empty(),
    decreases toks.len(),
{
    if toks.len() == 0 {
        assert(classify_tokens(toks, d).0 =~= toks);
    } else {
        assert(!is_any_flag(d, toks[0]));
        assert forall|k: int| 0 <= k < toks.skip(1).len() implies !is_any_flag(
            d,
            toks.skip(1)[k],
        ) by {
            assert(toks.skip(1)[k] == toks[k + 1]);
        }
        lemma_plain_tokens(toks.skip(1), d);
        assert(seq![toks[0]] + toks.skip(1) =~= toks);
    }
}

/// Classifying `"<cmd> <subcmd> <p>"` against a registry that matches
/// `cmd` to a descriptor with sub-command `subcmd` yields that manager,
/// exactly `[p]` as plain arguments, and no captured values, for every
/// package identifier `p` that the descriptor does not recognize as a
/// flag.
pub proof fn lemma_single_package_line(
    reg: Seq<DescriptorView>,
    i: int,
    cmd: Seq<char>,
    sub: Seq<char>,
    p: Seq<char>,
)
    requires
        matched_at(reg, i, cmd),
        reg[i].sub_commands.len() > 0,
        reg[i].sub_commands.contains(sub),
        word(cmd),
        word(sub),
        word(p),
        !is_any_flag(reg[i], p),
    ensures
        ({
            let r = classify_line_spec(cmd + seq![' '] + sub + seq![' '] + p, reg);
            &&& r is Ok
            &&& r->Ok_0.manager == reg[i]
            &&& r->Ok_0.plain_args == seq![p]
            &&& forall|k: int|
                0 <= k < r->Ok_0.captures.len() ==> r->Ok_0.captures[k].values == Seq::<
                    Seq<char>,
                >::empty()
        }),
{
    let line = cmd + seq![' '] + sub + seq![' '] + p;
    let toks = lemma_line_of_three_words(cmd, sub, p);
    assert(toks == split_ws(line));
    crate::classify::lemma_find_manager_prefix(reg, cmd, i);
    assert(reg.skip(i)[0] == reg[i]);
    assert(crate::classify::find_manager(reg.skip(i), cmd) == Some(0int));
    let d = reg[i];
    assert(toks.skip(2) =~= seq![p]);
    assert forall|k: int| 0 <= k < seq![p].len() implies !is_any_flag(d, seq![p][k]) by {
        assert(seq![p][k] == p);
    }
    lemma_plain_tokens(seq![p], d);
    let r = classify_line_spec(line, reg);
    assert forall|k: int| 0 <= k < r->Ok_0.captures.len() implies r->Ok_0.captures[k].values
        == Seq::<Seq<char>>::empty() by {
        assert(r->Ok_0.captures[k].values == values_for(
            Seq::<(Seq<char>, Seq<char>)>::empty(),
            capture_name(d.capture_flags[k]),
        ));
    }
}

proof fn lemma_line_of_three_words(cmd: Seq<char>, sub: Seq<char>, rest: Seq<char>) -> (toks: Seq<
    Seq<char>,
>)
    requires
        word(cmd),
        word(sub),
        word(rest),
    ensures
        toks == split_ws(cmd + seq![' '] + sub + seq![' '] + rest),
        toks == seq![cmd, sub, rest],
{
    let line = cmd + seq![' '] + sub + seq![' '] + rest;
    assert(line =~= cmd + seq![' '] + (sub + seq![' '] + rest));
    lemma_split_ws_leading_word(cmd, sub + seq![' '] + rest);
    lemma_split_ws_leading_word(sub, rest);
    lemma_split_ws_single_word(rest);
    assert(seq![cmd] + (seq![sub] + seq![rest]) =~= seq![cmd, sub, rest]);
    seq![cmd, sub, rest]
}

/// Classifying `"<cmd> <subcmd> <p1> <p2>"` yields the plain arguments
/// `[p1, p2]` in that order: encounter order is preserved.
pub proof fn lemma_two_packages_in_order(
    reg: Seq<DescriptorView>,
    i: int,
    cmd: Seq<char>,
    sub: Seq<char>,
    p1: Seq<char>,
    p2: Seq<char>,
)
    requires
        matched_at(reg, i, cmd),
        reg[i].sub_commands.len() > 0,
        reg[i].sub_commands.contains(sub),
        word(cmd),
        word(sub),
        word(p1),
        word(p2),
        !is_any_flag(reg[i], p1),
        !is_any_flag(reg[i], p2),
    ensures
        ({
            let r = classify_line_spec(cmd + seq![' '] + sub + seq![' '] + (p1 + seq![' '] + p2), reg);
            &&& r is Ok
            &&& r->Ok_0.manager == reg[i]
            &&& r->Ok_0.plain_args == seq![p1, p2]
        }),
{
    let tail = p1 + seq![' '] + p2;
    let line = cmd + seq![' '] + sub + seq![' '] + tail;
    assert(line =~= cmd + seq![' '] + (sub + seq![' '] + tail));
    lemma_split_ws_leading_word(cmd, sub + seq![' '] + tail);
    lemma_split_ws_leading_word(sub, tail);
    lemma_split_ws_leading_word(p1, p2);
    lemma_split_ws_single_word(p2);
    let toks = split_ws(line);
    assert(toks =~= seq![cmd, sub, p1, p2]);
    crate::classify::lemma_find_manager_prefix(reg, cmd, i);
    assert(reg.skip(i)[0] == reg[i]);
    assert(crate::classify::find_manager(reg.skip(i), cmd) == Some(0int));
    let d = reg[i];
    assert(toks.skip(2) =~= seq![p1, p2]);
    assert forall|k: int| 0 <= k < seq![p1, p2].len() implies !is_any_flag(
        d,
        seq![p1, p2][k],
    ) by {
        assert(k == 0 || k == 1);
    }
    lemma_plain_tokens(seq![p1, p2], d);
}

/// A value-consuming flag and the token after it are skipped as a pair:
/// neither reaches the plain arguments nor the captured values, and the
/// rest of the line classifies as if the pair were absent.
pub proof fn lemma_value_flag_skips_pair(
    d: DescriptorView,
    f: Seq<char>,
    v: Seq<char>,
    rest: Seq<Seq<char>>,
)
    requires
        d.value_flags.contains(f),
    ensures
        classify_tokens(seq![f, v] + rest, d) == classify_tokens(rest, d),
{
    let toks = seq![f, v] + rest;
    assert(toks[0] == f);
    assert(toks.len() >= 2);
    assert(toks.skip(2) =~= rest);
}

/// A `Single` capture flag followed by a value contributes exactly that
/// one value, under exactly that flag's name: the value is excluded from
/// the plain arguments, prepended to the flag's captured values, and no
/// other flag's captured values change.
pub proof fn lemma_single_capture_takes_value(
    d: DescriptorView,
    f: Seq<char>,
    v: Seq<char>,
    rest: Seq<Seq<char>>,
)
    requires
        !d.value_flags.contains(f),
        find_capture(d.capture_flags, f) matches Some(CaptureFlagView::Single(_)),
    ensures
        classify_tokens(seq![f, v] + rest, d).0 == classify_tokens(rest, d).0,
        classify_tokens(seq![f, v] + rest, d).1 == seq![(f, v)] + classify_tokens(rest, d).1,
        values_for(classify_tokens(seq![f, v] + rest, d).1, f) == seq![v] + values_for(
            classify_tokens(rest, d).1,
            f,
        ),
        forall|g: Seq<char>|
            g != f ==> values_for(classify_tokens(seq![f, v] + rest, d).1, g) == values_for(
                classify_tokens(rest, d).1,
                g,
            ),
{
    let toks = seq![f, v] + rest;
    assert(toks[0] == f);
    assert(toks[1] == v);
    assert(toks.len() >= 2);
    assert(toks.skip(2) =~= rest);
    let ev = classify_tokens(toks, d).1;
    assert(ev == seq![(f, v)] + classify_tokens(rest, d).1);
    assert(ev[0] == (f, v));
    assert(ev.len() > 0);
    assert(ev.drop_first() =~= classify_tokens(rest, d).1);
    assert forall|g: Seq<char>| g != f implies values_for(ev, g) == values_for(
        classify_tokens(rest, d).1,
        g,
    ) by {
        assert(ev[0].0 == f);
    }
}

/// Classification is a function of the line and the registry: two calls
/// that both satisfy [`crate::classify::classify`]'s contract on the same
/// input return identical outcomes, successes and failures alike.
pub proof fn lemma_classify_deterministic(
    r1: Result<ClassificationResult, ClassifyError>,
    r2: Result<ClassificationResult, ClassifyError>,
    line: Seq<char>,
    reg: Seq<DescriptorView>,
)
    requires
        result_agrees(r1, classify_line_spec(line, reg)),
        result_agrees(r2, classify_line_spec(line, reg)),
    ensures
        match (r1, r2) {
            (Ok(a), Ok(b)) => a@ == b@,
            (Err(a), Err(b)) => a == b,
            _ => false,
        },
{
}

/// A line whose first token no registered descriptor claims as a command
/// name fails with `UnknownManager`: no result is produced at all.
pub proof fn lemma_unknown_manager(line: Seq<char>, reg: Seq<DescriptorView>)
    requires
        split_ws(line).len() > 0,
        forall|k: int| 0 <= k < reg.len() ==> !reg[k].commands.contains(split_ws(line)[0]),
    ensures
        classify_line_spec(line, reg) == Err::<crate::classify::ResultView, _>(
            ClassifyError::UnknownManager,
        ),
{
    crate::classify::lemma_find_manager_prefix(reg, split_ws(line)[0], reg.len() as int);
    assert(reg.skip(reg.len() as int) =~= Seq::<DescriptorView>::empty());
}

/// An empty or whitespace-only line fails with `EmptyInput`, whatever the
/// registry.
pub proof fn lemma_empty_input(line: Seq<char>, reg: Seq<DescriptorView>)
    requires
        forall|k: int| 0 <= k < line.len() ==> is_space(line[k]),
    ensures
        classify_line_spec(line, reg) == Err::<crate::classify::ResultView, _>(
            ClassifyError::EmptyInput,
        ),
{
    lemma_split_ws_all_space(line);
}

} // verus!
