//! The classification engine: matching a tokenized line against the
//! descriptor registry and separating flags from package identifiers.

use vstd::prelude::*;
use crate::descriptor::CaptureFlag;
use crate::descriptor::CaptureFlagView;
use crate::descriptor::DescriptorView;
use crate::descriptor::ManagerDescriptor;
use crate::descriptor::capture_name;
use crate::tokenize::split_ws;
use crate::tokenize::tokenize;
use vstd::string::StrSliceExecFns;

verus! {

/// Why a line could not be classified.
#[derive(Debug, Clone, Copy, PartialEq, Eq, Structural)]
pub enum ClassifyError {
    /// The line was empty or all whitespace.
    EmptyInput,
    /// The first token names no registered manager.
    UnknownManager,
    /// The manager requires one of its sub-commands and the second token is
    /// not one of them.
    UnrecognizedSubcommand,
}

/// Whether a token looks like a flag: it starts with the flag prefix `-`.
pub open spec fn flag_shaped(t: Seq<char>) -> bool {
    t.len() > 0 && t[0] == '-'
}

/// Executable test for [`flag_shaped`].
pub fn token_flag_shaped(t: &String) -> (r: bool)
    ensures
        r == flag_shaped(t@),
{
    let n = t.as_str().unicode_len();
    if n == 0 {
        false
    } else {
        t.as_str().get_char(0) == '-'
    }
}

/// Whether some element of `xs` equals `t`.
pub fn vec_contains_string(xs: &Vec<String>, t: &String) -> (r: bool)
    ensures
        r == xs.deep_view().contains(t@),
{
    let mut i: usize = 0;
    while i < xs.len()
        invariant
            i <= xs.len(),
            forall|k: int| 0 <= k < i ==> xs.deep_view()[k] != t@,
        decreases xs.len() - i,
    {
        if xs[i] == *t {
            proof {
                assert(xs.deep_view()[i as int] == t@);
            }
            return true;
        }
        i = i + 1;
    }
    false
}

/// The first capture flag of `cfs` named `t`, if any.
pub open spec fn find_capture(cfs: Seq<CaptureFlagView>, t: Seq<char>) -> Option<CaptureFlagView>
    decreases cfs.len(),
{
    if cfs.len() == 0 {
        None
    } else if capture_name(cfs[0]) == t {
        Some(cfs[0])
    } else {
        find_capture(cfs.drop_first(), t)
    }
}

/// Looks `t` up in the capture-flag table: `Some(true)` for a `Single`
/// capture flag, `Some(false)` for a `List` one, `None` when `t` is no
/// capture flag.
pub fn capture_arity(cfs: &Vec<CaptureFlag>, t: &String) -> (r: Option<bool>)
    ensures
        match find_capture(cfs.deep_view(), t@) {
            Some(f) => r == Some(f is Single),
            None => r is None,
        },
{
    let mut i: usize = 0;
    proof {
        assert(cfs.deep_view().skip(0) =~= cfs.deep_view());
    }
    while i < cfs.len()
        invariant
            i <= cfs.len(),
            find_capture(cfs.deep_view(), t@) == find_capture(
                cfs.deep_view().skip(i as int),
                t@,
            ),
        decreases cfs.len() - i,
    {
        let ghost rest = cfs.deep_view().skip(i as int);
        proof {
            assert(rest[0] == cfs.deep_view()[i as int]);
            assert(rest.drop_first() =~= cfs.deep_view().skip(i as int + 1));
        }
        match &cfs[i] {
            CaptureFlag::Single(name) => {
                if *name == *t {
                    proof {
                        assert(capture_name(rest[0]) == t@);
                        assert(find_capture(rest, t@) == Some(rest[0]));
                        assert(rest[0] is Single);
                    }
                    return Some(true);
                }
                proof {
                    assert(capture_name(rest[0]) != t@);
                    assert(find_capture(rest, t@) == find_capture(rest.drop_first(), t@));
                }
            },
            CaptureFlag::List(name) => {
                if *name == *t {
                    proof {
                        assert(capture_name(rest[0]) == t@);
                        assert(find_capture(rest, t@) == Some(rest[0]));
                        assert(!(rest[0] is Single));
                    }
                    return Some(false);
                }
                proof {
                    assert(capture_name(rest[0]) != t@);
                    assert(find_capture(rest, t@) == find_capture(rest.drop_first(), t@));
                }
            },
        }
        i = i + 1;
    }
    proof {
        assert(cfs.deep_view().skip(cfs.len() as int) =~= Seq::<CaptureFlagView>::empty());
    }
    None
}

/// Whether the classifier recognizes `t` as a flag of any kind: a
/// value-consuming flag, a capture flag, or merely flag-shaped.
pub open spec fn is_any_flag(d: DescriptorView, t: Seq<char>) -> bool {
    d.value_flags.contains(t) || find_capture(d.capture_flags, t) is Some || flag_shaped(t)
}

/// Executable test for [`is_any_flag`].
pub fn token_is_any_flag(d: &ManagerDescriptor, t: &String) -> (r: bool)
    ensures
        r == is_any_flag(d@, t@),
{
    if vec_contains_string(&d.value_flags, t) {
        true
    } else if capture_arity(&d.capture_flags, t).is_some() {
        true
    } else {
        token_flag_shaped(t)
    }
}

/// How many leading tokens a `List` capture flag consumes: the tokens up
/// to the first one recognized as a flag, or all of them.
pub open spec fn list_run_len(toks: Seq<Seq<char>>, d: DescriptorView) -> nat
    decreases toks.len(),
{
    if toks.len() == 0 || is_any_flag(d, toks[0]) {
        0
    } else {
        1 + list_run_len(toks.drop_first(), d)
    }
}

proof fn lemma_list_run_len_le(toks: Seq<Seq<char>>, d: DescriptorView)
    ensures
        list_run_len(toks, d) <= toks.len(),
    decreases toks.len(),
{
    if toks.len() > 0 && !is_any_flag(d, toks[0]) {
        lemma_list_run_len_le(toks.drop_first(), d);
    }
}

proof fn lemma_list_run_len_at(toks: Seq<Seq<char>>, d: DescriptorView, m: int)
    requires
        0 <= m <= toks.len(),
        forall|k: int| 0 <= k < m ==> !is_any_flag(d, toks[k]),
        m == toks.len() || is_any_flag(d, toks[m]),
    ensures
        list_run_len(toks, d) == m,
    decreases m,
{
    if m == 0 {
    } else {
        assert(!is_any_flag(d, toks[0]));
        lemma_list_run_len_at(toks.drop_first(), d, m - 1);
    }
}

/// The heart of the flag classifier: walks the tokens left to right and
/// returns the plain arguments (the package identifiers, in encounter
/// order) together with the capture events, each a pair of a capture
/// flag's name and one value captured for it, in encounter order.
///
/// Per token: a value-consuming flag and its following value are skipped
/// as a pair; a `Single` capture flag records the following token as one
/// value; a `List` capture flag records every following token up to the
/// next recognized flag; a token that is not flag-shaped is a plain
/// argument; any other flag-shaped token is dropped. A flag at the end of
/// the line with no following value is present with no value, not an
/// error. The value-consuming table wins over the capture table when a
/// name appears in both.
pub open spec fn classify_tokens(toks: Seq<Seq<char>>, d: DescriptorView) -> (Seq<Seq<char>>, Seq<
    (Seq<char>, Seq<char>),
>)
    decreases toks.len(),
    via classify_tokens_dec
{
    if toks.len() == 0 {
        (Seq::empty(), Seq::empty())
    } else {
        let t = toks[0];
        if d.value_flags.contains(t) {
            if toks.len() >= 2 {
                classify_tokens(toks.skip(2), d)
            } else {
                (Seq::empty(), Seq::empty())
            }
        } else {
            match find_capture(d.capture_flags, t) {
                Some(CaptureFlagView::Single(_)) => {
                    if toks.len() >= 2 {
                        let r = classify_tokens(toks.skip(2), d);
                        (r.0, seq![(t, toks[1])] + r.1)
                    } else {
                        (Seq::empty(), Seq::empty())
                    }
                },
                Some(CaptureFlagView::List(_)) => {
                    let rest = toks.skip(1);
                    let k = list_run_len(rest, d) as int;
                    let r = classify_tokens(rest.skip(k), d);
                    (r.0, Seq::new(k as nat, |j: int| (t, rest[j])) + r.1)
                },
                None => {
                    let r = classify_tokens(toks.skip(1), d);
                    if flag_shaped(t) {
                        r
                    } else {
                        (seq![t] + r.0, r.1)
                    }
                },
            }
        }
    }
}

#[via_fn]
proof fn classify_tokens_dec(toks: Seq<Seq<char>>, d: DescriptorView) {
    if toks.len() > 0 {
        lemma_list_run_len_le(toks.skip(1), d);
    }
}

/// The values captured for the flag named `f`, in order, among `events`.
pub open spec fn values_for(events: Seq<(Seq<char>, Seq<char>)>, f: Seq<char>) -> Seq<Seq<char>>
    decreases events.len(),
{
    if events.len() == 0 {
        Seq::empty()
    } else if events[0].0 == f {
        seq![events[0].1] + values_for(events.drop_first(), f)
    } else {
        values_for(events.drop_first(), f)
    }
}

proof fn lemma_values_for_push(
    events: Seq<(Seq<char>, Seq<char>)>,
    e: (Seq<char>, Seq<char>),
    f: Seq<char>,
)
    ensures
        values_for(events.push(e), f) == values_for(events, f) + (if e.0 == f {
            seq![e.1]
        } else {
            Seq::<Seq<char>>::empty()
        }),
    decreases events.len(),
{
    let tail = if e.0 == f {
        seq![e.1]
    } else {
        Seq::<Seq<char>>::empty()
    };
    if events.len() == 0 {
        assert(events.push(e)[0] == e);
        assert(events.push(e).drop_first() =~= Seq::<(Seq<char>, Seq<char>)>::empty());
        assert(values_for(events.push(e).drop_first(), f) =~= Seq::<Seq<char>>::empty());
        assert(values_for(events, f) =~= Seq::<Seq<char>>::empty());
        if e.0 == f {
            assert(values_for(events.push(e), f) =~= seq![e.1] + Seq::<Seq<char>>::empty());
            assert(seq![e.1] + Seq::<Seq<char>>::empty() =~= values_for(events, f) + tail);
        } else {
            assert(values_for(events.push(e), f) =~= Seq::<Seq<char>>::empty());
            assert(values_for(events, f) + tail =~= Seq::<Seq<char>>::empty());
        }
    } else {
        assert(events.push(e)[0] == events[0]);
        assert(events.push(e).drop_first() =~= events.drop_first().push(e));
        lemma_values_for_push(events.drop_first(), e, f);
        if events[0].0 == f {
            assert(seq![events[0].1] + (values_for(events.drop_first(), f) + tail) =~= (seq![
                events[0].1,
            ] + values_for(events.drop_first(), f)) + tail);
        }
    }
}


/// The values captured for one capture flag, grouped under its name.
#[derive(Debug, PartialEq, Eq)]
pub struct CapturedValues {
    /// The capture flag's name.
    pub flag: String,
    /// The values captured for it, in encounter order.
    pub values: Vec<String>,
}

/// Mathematical model of a [`CapturedValues`].
#[verifier::ext_equal]
pub struct CapturedValuesView {
    pub flag: Seq<char>,
    pub values: Seq<Seq<char>>,
}

impl View for CapturedValues {
    type V = CapturedValuesView;

    open spec fn view(&self) -> CapturedValuesView {
        CapturedValuesView { flag: self.flag@, values: self.values.deep_view() }
    }
}

impl DeepView for CapturedValues {
    type V = CapturedValuesView;

    open spec fn deep_view(&self) -> CapturedValuesView {
        self.view()
    }
}

/// The structured output of classifying one line: the matched manager's
/// descriptor, the package identifiers, and the captured flag values.
#[derive(Debug, PartialEq, Eq)]
pub struct ClassificationResult {
    /// The matched manager's capability record.
    pub manager: ManagerDescriptor,
    /// The plain arguments: the target package identifiers, in encounter
    /// order, duplicates preserved.
    pub plain_args: Vec<String>,
    /// One entry per capture flag of the manager, in descriptor order,
    /// holding the values captured for that flag.
    pub captures: Vec<CapturedValues>,
}

/// Mathematical model of a [`ClassificationResult`].
#[verifier::ext_equal]
pub struct ResultView {
    pub manager: DescriptorView,
    pub plain_args: Seq<Seq<char>>,
    pub captures: Seq<CapturedValuesView>,
}

impl View for ClassificationResult {
    type V = ResultView;

    open spec fn view(&self) -> ResultView {
        ResultView {
            manager: self.manager@,
            plain_args: self.plain_args.deep_view(),
            captures: self.captures.deep_view(),
        }
    }
}

/// The capture events grouped by flag: one entry per capture flag of the
/// descriptor, in descriptor order, with the values captured for it.
pub open spec fn grouped_captures(d: DescriptorView, events: Seq<(Seq<char>, Seq<char>)>) -> Seq<
    CapturedValuesView,
> {
    Seq::new(
        d.capture_flags.len(),
        |i: int|
            CapturedValuesView {
                flag: capture_name(d.capture_flags[i]),
                values: values_for(events, capture_name(d.capture_flags[i])),
            },
    )
}

/// What classifying the tokens after the manager and sub-command against
/// descriptor `d` assembles to.
pub open spec fn assemble(d: DescriptorView, toks: Seq<Seq<char>>) -> ResultView {
    ResultView {
        manager: d,
        plain_args: classify_tokens(toks, d).0,
        captures: grouped_captures(d, classify_tokens(toks, d).1),
    }
}

/// The first descriptor of `reg` whose command-name set contains `t`:
/// first registered wins when two claim the same command name.
pub open spec fn find_manager(reg: Seq<DescriptorView>, t: Seq<char>) -> Option<int>
    decreases reg.len(),
{
    if reg.len() == 0 {
        None
    } else if reg[0].commands.contains(t) {
        Some(0)
    } else {
        match find_manager(reg.drop_first(), t) {
            Some(i) => Some(i + 1),
            None => None,
        }
    }
}

pub(crate) proof fn lemma_find_manager_prefix(reg: Seq<DescriptorView>, t: Seq<char>, i: int)
    requires
        0 <= i <= reg.len(),
        forall|k: int| 0 <= k < i ==> !reg[k].commands.contains(t),
    ensures
        find_manager(reg, t) == match find_manager(reg.skip(i), t) {
            Some(j) => Some(i + j),
            None => None::<int>,
        },
    decreases i,
{
    if i == 0 {
        assert(reg.skip(0) =~= reg);
    } else {
        assert(!reg[0].commands.contains(t));
        assert(reg.drop_first().skip(i - 1) =~= reg.skip(i));
        lemma_find_manager_prefix(reg.drop_first(), t, i - 1);
    }
}

/// Finds the first descriptor whose command names contain `t`.
fn find_manager_exec(registry: &Vec<ManagerDescriptor>, t: &String) -> (r: Option<usize>)
    ensures
        match r {
            Some(i) => i < registry.len() && find_manager(registry.deep_view(), t@) == Some(
                i as int,
            ),
            None => find_manager(registry.deep_view(), t@) is None,
        },
{
    let ghost reg = registry.deep_view();
    let mut i: usize = 0;
    while i < registry.len()
        invariant
            reg == registry.deep_view(),
            i <= registry.len(),
            forall|k: int| 0 <= k < i ==> !reg[k].commands.contains(t@),
        decreases registry.len() - i,
    {
        if vec_contains_string(&registry[i].commands, t) {
            proof {
                lemma_find_manager_prefix(reg, t@, i as int);
                assert(reg.skip(i as int)[0] == reg[i as int]);
                assert(find_manager(reg.skip(i as int), t@) == Some(0int));
            }
            return Some(i);
        }
        i = i + 1;
    }
    proof {
        lemma_find_manager_prefix(reg, t@, registry.len() as int);
        assert(reg.skip(registry.len() as int) =~= Seq::<DescriptorView>::empty());
    }
    None
}


/// Walks the tokens from `start` on with the descriptor's flag tables,
/// returning the plain arguments and the capture events.
fn classify_rest(d: &ManagerDescriptor, toks: &Vec<String>, start: usize) -> (r: (
    Vec<String>,
    Vec<(String, String)>,
))
    requires
        start <= toks.len(),
    ensures
        r.0.deep_view() == classify_tokens(toks.deep_view().skip(start as int), d@).0,
        r.1.deep_view() == classify_tokens(toks.deep_view().skip(start as int), d@).1,
{
    let ghost all = toks.deep_view();
    let ghost dv = d@;
    let ghost goal = classify_tokens(all.skip(start as int), dv);
    let mut plain: Vec<String> = Vec::new();
    let mut events: Vec<(String, String)> = Vec::new();
    let mut i: usize = start;
    proof {
        assert(plain.deep_view() =~= Seq::<Seq<char>>::empty());
        assert(events.deep_view() =~= Seq::<(Seq<char>, Seq<char>)>::empty());
        assert(Seq::<Seq<char>>::empty() + goal.0 =~= goal.0);
        assert(Seq::<(Seq<char>, Seq<char>)>::empty() + goal.1 =~= goal.1);
    }
    while i < toks.len()
        invariant
            all == toks.deep_view(),
            dv == d@,
            goal == classify_tokens(all.skip(start as int), dv),
            start <= i <= toks.len(),
            goal.0 == plain.deep_view() + classify_tokens(all.skip(i as int), dv).0,
            goal.1 == events.deep_view() + classify_tokens(all.skip(i as int), dv).1,
        decreases toks.len() - i,
    {
        let ghost s_i = all.skip(i as int);
        proof {
            assert(s_i[0] == all[i as int]);
            assert(s_i.skip(1) =~= all.skip(i as int + 1));
            assert(s_i.len() == all.len() - i);
        }
        let t = &toks[i];
        if vec_contains_string(&d.value_flags, t) {
            // A value-consuming flag: skip it and its value as a pair. At
            // the end of the line the flag is present with no value.
            if i + 1 < toks.len() {
                proof {
                    assert(s_i.skip(2) =~= all.skip(i as int + 2));
                    assert(classify_tokens(s_i, dv) == classify_tokens(
                        all.skip(i as int + 2),
                        dv,
                    ));
                }
                i = i + 2;
            } else {
                proof {
                    assert(all.skip(i as int + 1) =~= Seq::<Seq<char>>::empty());
                    assert(classify_tokens(s_i, dv) == classify_tokens(
                        all.skip(i as int + 1),
                        dv,
                    ));
                }
                i = i + 1;
            }
        } else {
            let arity = capture_arity(&d.capture_flags, t);
            match arity {
                Some(true) => {
                    // A `Single` capture flag: record the next token as its
                    // one value; none at the end of the line.
                    if i + 1 < toks.len() {
                        let ghost pe = events.deep_view();
                        let value = toks[i + 1].clone();
                        events.push((t.clone(), value));
                        proof {
                            assert(s_i[1] == all[i as int + 1]);
                            assert(s_i.skip(2) =~= all.skip(i as int + 2));
                            assert(events.deep_view() =~= pe.push((t@, all[i as int + 1])));
                            assert(pe.push((t@, all[i as int + 1])) =~= pe + seq![
                                (t@, all[i as int + 1]),
                            ]);
                            assert(classify_tokens(s_i, dv).0 == classify_tokens(
                                all.skip(i as int + 2),
                                dv,
                            ).0);
                            assert(classify_tokens(s_i, dv).1 == seq![(t@, all[i as int + 1])]
                                + classify_tokens(all.skip(i as int + 2), dv).1);
                            assert(pe + (seq![(t@, all[i as int + 1])] + classify_tokens(
                                all.skip(i as int + 2),
                                dv,
                            ).1) =~= (pe + seq![(t@, all[i as int + 1])]) + classify_tokens(
                                all.skip(i as int + 2),
                                dv,
                            ).1);
                        }
                        i = i + 2;
                    } else {
                        proof {
                            assert(all.skip(i as int + 1) =~= Seq::<Seq<char>>::empty());
                            assert(classify_tokens(s_i, dv) == classify_tokens(
                                all.skip(i as int + 1),
                                dv,
                            ));
                        }
                        i = i + 1;
                    }
                },
                Some(false) => {
                    // A `List` capture flag: record every following token up
                    // to the next recognized flag as a value.
                    let flag = t.clone();
                    let ghost pe = events.deep_view();
                    let mut j: usize = i + 1;
                    proof {
                        assert(events.deep_view() =~= pe + Seq::new(
                            0,
                            |m: int| (flag@, all[i + 1 + m]),
                        ));
                    }
                    while j < toks.len() && !token_is_any_flag(d, &toks[j])
                        invariant
                            all == toks.deep_view(),
                            dv == d@,
                            i + 1 <= j <= toks.len(),
                            i < toks.len(),
                            flag@ == all[i as int],
                            forall|m: int| i + 1 <= m < j ==> !is_any_flag(dv, all[m]),
                            events.deep_view() == pe + Seq::new(
                                (j - i - 1) as nat,
                                |m: int| (flag@, all[i + 1 + m]),
                            ),
                        decreases toks.len() - j,
                    {
                        let ghost pe2 = events.deep_view();
                        let value = toks[j].clone();
                        events.push((flag.clone(), value));
                        proof {
                            assert(events.deep_view() =~= pe2.push((flag@, all[j as int])));
                            assert(pe2.push((flag@, all[j as int])) =~= pe + Seq::new(
                                (j + 1 - i - 1) as nat,
                                |m: int| (flag@, all[i + 1 + m]),
                            ));
                        }
                        j = j + 1;
                    }
                    proof {
                        let rest = s_i.skip(1);
                        let m = j - i - 1;
                        assert forall|k: int| 0 <= k < m implies !is_any_flag(dv, rest[k]) by {
                            assert(rest[k] == all[i + 1 + k]);
                        }
                        if j < toks.len() {
                            assert(is_any_flag(dv, rest[m]));
                        }
                        lemma_list_run_len_at(rest, dv, m);
                        assert(rest.skip(m) =~= all.skip(j as int));
                        assert(classify_tokens(s_i, dv).0 == classify_tokens(
                            all.skip(j as int),
                            dv,
                        ).0);
                        assert(classify_tokens(s_i, dv).1 == Seq::new(
                            m as nat,
                            |q: int| (s_i[0], rest[q]),
                        ) + classify_tokens(all.skip(j as int), dv).1);
                        assert(Seq::new(m as nat, |q: int| (s_i[0], rest[q])) =~= Seq::new(
                            m as nat,
                            |q: int| (flag@, all[i + 1 + q]),
                        ));
                        assert(pe + (Seq::new(m as nat, |q: int| (flag@, all[i + 1 + q]))
                            + classify_tokens(all.skip(j as int), dv).1) =~= (pe + Seq::new(
                            m as nat,
                            |q: int| (flag@, all[i + 1 + q]),
                        )) + classify_tokens(all.skip(j as int), dv).1);
                    }
                    i = j;
                },
                _ => {
                    if !token_flag_shaped(t) {
                        // A plain argument: a package identifier.
                        let ghost pp = plain.deep_view();
                        plain.push(t.clone());
                        proof {
                            assert(classify_tokens(s_i, dv).0 == seq![s_i[0]] + classify_tokens(
                                all.skip(i as int + 1),
                                dv,
                            ).0);
                            assert(classify_tokens(s_i, dv).1 == classify_tokens(
                                all.skip(i as int + 1),
                                dv,
                            ).1);
                            assert(plain.deep_view() =~= pp.push(t@));
                            assert(pp.push(t@) =~= pp + seq![t@]);
                            assert(pp + (seq![t@] + classify_tokens(
                                all.skip(i as int + 1),
                                dv,
                            ).0) =~= (pp + seq![t@]) + classify_tokens(
                                all.skip(i as int + 1),
                                dv,
                            ).0);
                        }
                    } else {
                        // An unrecognized flag-shaped token: dropped.
                        proof {
                            assert(classify_tokens(s_i, dv) == classify_tokens(
                                all.skip(i as int + 1),
                                dv,
                            ));
                        }
                    }
                    i = i + 1;
                },
            }
        }
    }
    proof {
        assert(all.skip(toks.len() as int) =~= Seq::<Seq<char>>::empty());
        assert(plain.deep_view() + classify_tokens(Seq::<Seq<char>>::empty(), dv).0
            =~= plain.deep_view());
        assert(events.deep_view() + classify_tokens(Seq::<Seq<char>>::empty(), dv).1
            =~= events.deep_view());
    }
    (plain, events)
}


/// Groups the capture events by flag: one entry per capture flag of the
/// descriptor, in descriptor order.
fn group_captures(d: &ManagerDescriptor, events: &Vec<(String, String)>) -> (r: Vec<
    CapturedValues,
>)
    ensures
        r.deep_view() == grouped_captures(d@, events.deep_view()),
{
    let ghost dv = d@;
    let ghost ev = events.deep_view();
    let mut r: Vec<CapturedValues> = Vec::new();
    let mut i: usize = 0;
    proof {
        assert(r.deep_view() =~= grouped_captures(dv, ev).take(0));
    }
    while i < d.capture_flags.len()
        invariant
            dv == d@,
            ev == events.deep_view(),
            i <= d.capture_flags.len(),
            r.deep_view() == grouped_captures(dv, ev).take(i as int),
        decreases d.capture_flags.len() - i,
    {
        let name = match &d.capture_flags[i] {
            CaptureFlag::Single(n) => n.clone(),
            CaptureFlag::List(n) => n.clone(),
        };
        proof {
            assert(name@ == capture_name(dv.capture_flags[i as int]));
        }
        let mut values: Vec<String> = Vec::new();
        let mut j: usize = 0;
        proof {
            assert(values.deep_view() =~= values_for(ev.take(0), name@));
            assert(ev.take(0) =~= Seq::<(Seq<char>, Seq<char>)>::empty());
        }
        while j < events.len()
            invariant
                ev == events.deep_view(),
                j <= events.len(),
                values.deep_view() == values_for(ev.take(j as int), name@),
            decreases events.len() - j,
        {
            proof {
                assert(ev.take(j as int + 1) =~= ev.take(j as int).push(ev[j as int]));
                lemma_values_for_push(ev.take(j as int), ev[j as int], name@);
            }
            if events[j].0 == name {
                let ghost pv = values.deep_view();
                values.push(events[j].1.clone());
                proof {
                    assert(ev[j as int].0 == name@);
                    assert(values.deep_view() =~= pv.push(ev[j as int].1));
                    assert(pv.push(ev[j as int].1) =~= pv + seq![ev[j as int].1]);
                }
            } else {
                proof {
                    assert(ev[j as int].0 != name@);
                    assert(values.deep_view() + Seq::<Seq<char>>::empty()
                        =~= values.deep_view());
                }
            }
            j = j + 1;
        }
        proof {
            assert(ev.take(events.len() as int) =~= ev);
        }
        let ghost pr = r.deep_view();
        let entry = CapturedValues { flag: name, values };
        proof {
            assert(entry@ =~= grouped_captures(dv, ev)[i as int]);
        }
        r.push(entry);
        proof {
            assert(r.deep_view() =~= pr.push(entry@));
            assert(pr.push(entry@) =~= grouped_captures(dv, ev).take(i as int + 1));
        }
        i = i + 1;
    }
    proof {
        assert(grouped_captures(dv, ev).take(d.capture_flags.len() as int) =~= grouped_captures(
            dv,
            ev,
        ));
    }
    r
}

/// What [`classify`] returns for a given line and registry: the
/// whitespace-split of the line is matched against the registry and its
/// remaining tokens are classified with the matched descriptor's tables.
///
/// The call fails with `EmptyInput` exactly when the line has no tokens,
/// with `UnknownManager` exactly when no registered descriptor claims the
/// first token as a command name, and with `UnrecognizedSubcommand`
/// exactly when the matched manager has a non-empty sub-command set and
/// the line's second token (if any) is not in it.
pub open spec fn classify_line_spec(line: Seq<char>, reg: Seq<DescriptorView>) -> Result<
    ResultView,
    ClassifyError,
> {
    let toks = split_ws(line);
    if toks.len() == 0 {
        Err(ClassifyError::EmptyInput)
    } else {
        match find_manager(reg, toks[0]) {
            None => Err(ClassifyError::UnknownManager),
            Some(i) => {
                let d = reg[i];
                if d.sub_commands.len() == 0 {
                    Ok(assemble(d, toks.skip(1)))
                } else if toks.len() >= 2 && d.sub_commands.contains(toks[1]) {
                    Ok(assemble(d, toks.skip(2)))
                } else {
                    Err(ClassifyError::UnrecognizedSubcommand)
                }
            },
        }
    }
}

/// Whether an executable classification outcome models the specified one.
pub open spec fn result_agrees(
    r: Result<ClassificationResult, ClassifyError>,
    s: Result<ResultView, ClassifyError>,
) -> bool {
    match (r, s) {
        (Ok(a), Ok(b)) => a@ == b,
        (Err(a), Err(b)) => a == b,
        _ => false,
    }
}

/// Classifies a raw command line against the registry: which manager the
/// line invokes, the package identifiers it targets, and the captured
/// flag values. Pure; two calls on the same input classify alike.
pub fn classify(line: &str, registry: &Vec<ManagerDescriptor>) -> (r: Result<
    ClassificationResult,
    ClassifyError,
>)
    ensures
        result_agrees(r, classify_line_spec(line@, registry.deep_view())),
{
    let ghost reg = registry.deep_view();
    let toks = tokenize(line);
    let ghost tv = toks.deep_view();
    if toks.len() == 0 {
        return Err(ClassifyError::EmptyInput);
    }
    let idx = match find_manager_exec(registry, &toks[0]) {
        Some(i) => i,
        None => {
            return Err(ClassifyError::UnknownManager);
        },
    };
    let d = &registry[idx];
    proof {
        assert(d@ == reg[idx as int]);
    }
    let start: usize;
    if d.sub_commands.len() == 0 {
        start = 1;
    } else if toks.len() >= 2 && vec_contains_string(&d.sub_commands, &toks[1]) {
        start = 2;
    } else {
        return Err(ClassifyError::UnrecognizedSubcommand);
    }
    let (plain_args, events) = classify_rest(d, &toks, start);
    let captures = group_captures(d, &events);
    let manager = d.duplicate();
    let result = ClassificationResult { manager, plain_args, captures };
    proof {
        assert(result@ =~= assemble(d@, tv.skip(start as int)));
    }
    Ok(result)
}

} // verus!
