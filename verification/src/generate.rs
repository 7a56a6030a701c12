//! Generation of benchmark scenarios from client groups, weights and
//! bandwidths, and parsing of the generator's command-line values.

use vstd::prelude::*;
use crate::scenario::{
    Scenario, ScenarioConfig, add_instance_entries, find_key, insert_entry, keys_of,
};
use crate::text::{
    append_str, chars_of, decimal, decimal_string, join, join_strings, non_empty, parse_u32,
    parse_unsigned, split_by, split_by_char, string_from_chars, string_views, trim, trim_chars,
    views,
};

verus! {

/// Why scenarios could not be generated.
#[derive(Debug)]
pub enum GenerationError {
    /// A weight configuration (written `w1-w2-...`) names another number of
    /// client groups (the first count) than the scenario has (the second).
    InvalidWeights(String, usize, usize),
}

/// The text of a generation error.
pub open spec fn generation_message(e: GenerationError) -> Seq<char> {
    match e {
        GenerationError::InvalidWeights(w, n, m) => "Weight configuration \""@ + w@ + "\" assumes "@
            + decimal(n as nat) + " client types and cannot be applied to scenario with "@ + decimal(
            m as nat,
        ) + " client types"@,
    }
}

impl GenerationError {
    /// The message that describes the error.
    pub fn message(&self) -> (res: String)
        ensures
            res@ == generation_message(*self),
    {
        match self {
            GenerationError::InvalidWeights(w, n, m) => {
                let mut s = "Weight configuration \"".to_owned();
                append_str(&mut s, w.as_str());
                append_str(&mut s, "\" assumes ");
                let a = decimal_string(*n as u128);
                append_str(&mut s, a.as_str());
                append_str(&mut s, " client types and cannot be applied to scenario with ");
                let b = decimal_string(*m as u128);
                append_str(&mut s, b.as_str());
                append_str(&mut s, " client types");
                s
            },
        }
    }
}

/// A partial scenario: client kinds with their numbers of instances.
pub open spec fn combo_view(c: Vec<(String, u32)>) -> Seq<(Seq<char>, u32)> {
    c@.map_values(|e: (String, u32)| (e.0@, e.1))
}

/// Viewed partial scenarios.
pub open spec fn combos_view(cs: Seq<Vec<(String, u32)>>) -> Seq<Seq<(Seq<char>, u32)>> {
    cs.map_values(|c: Vec<(String, u32)>| combo_view(c))
}

/// Viewed client groups.
pub open spec fn algo_views(groups: Seq<Vec<String>>) -> Seq<Seq<Seq<char>>> {
    groups.map_values(|g: Vec<String>| string_views(g@))
}

/// Every way of putting one of `names`, with `count` instances, in front of
/// one of the partial scenarios `sub`: names in order, then `sub` in order.
pub open spec fn prefix_all(
    names: Seq<Seq<char>>,
    count: u32,
    sub: Seq<Seq<(Seq<char>, u32)>>,
) -> Seq<Seq<(Seq<char>, u32)>>
    decreases names.len(),
{
    if names.len() == 0 {
        Seq::empty()
    } else {
        prefix_all(names.drop_last(), count, sub) + sub.map_values(
            |s: Seq<(Seq<char>, u32)>| seq![(names.last(), count)] + s,
        )
    }
}

/// The partial scenarios for client groups `groups` whose instance counts are
/// `counts`: one choice of algorithm per group, groups with no instance left out.
pub open spec fn combinations(counts: Seq<u32>, groups: Seq<Seq<Seq<char>>>) -> Seq<
    Seq<(Seq<char>, u32)>,
>
    decreases groups.len(),
{
    if groups.len() == 0 {
        seq![Seq::empty()]
    } else {
        let sub = combinations(counts.drop_first(), groups.drop_first());
        if counts[0] == 0 {
            sub
        } else {
            prefix_all(groups[0], counts[0], sub)
        }
    }
}

/// How many ways there are of picking one algorithm from each group whose
/// count is not zero.
pub open spec fn choice_count(counts: Seq<u32>, groups: Seq<Seq<Seq<char>>>) -> nat
    decreases groups.len(),
{
    if groups.len() == 0 {
        1
    } else {
        let rest = choice_count(counts.drop_first(), groups.drop_first());
        if counts[0] == 0 {
            rest
        } else {
            groups[0].len() * rest
        }
    }
}

/// `c` picks, in group order, one algorithm of each group whose count is not
/// zero, with that group's count.
pub open spec fn picks_one_per_group(c: Seq<(Seq<char>, u32)>, counts: Seq<u32>, groups: Seq<Seq<Seq<char>>>) -> bool
    decreases groups.len(),
{
    if groups.len() == 0 {
        c.len() == 0
    } else if counts[0] == 0 {
        picks_one_per_group(c, counts.drop_first(), groups.drop_first())
    } else {
        &&& c.len() > 0
        &&& c[0].1 == counts[0]
        &&& groups[0].contains(c[0].0)
        &&& picks_one_per_group(c.drop_first(), counts.drop_first(), groups.drop_first())
    }
}

proof fn lemma_prefix_all_len(names: Seq<Seq<char>>, count: u32, sub: Seq<Seq<(Seq<char>, u32)>>)
    ensures
        prefix_all(names, count, sub).len() == names.len() * sub.len(),
    decreases names.len(),
{
    if names.len() > 0 {
        lemma_prefix_all_len(names.drop_last(), count, sub);
        let n = names.len() as int;
        let m = sub.len() as int;
        assert((n - 1) * m + m == n * m) by (nonlinear_arith);
    }
}

proof fn lemma_prefix_all_index(names: Seq<Seq<char>>, count: u32, sub: Seq<Seq<(Seq<char>, u32)>>, k: int)
    requires
        0 <= k < prefix_all(names, count, sub).len(),
    ensures
        exists|a: int, b: int|
            0 <= a < names.len() && 0 <= b < sub.len() && prefix_all(names, count, sub)[k] == seq![
                (names[a], count),
            ] + sub[b],
    decreases names.len(),
{
    let front = prefix_all(names.drop_last(), count, sub);
    if k < front.len() {
        lemma_prefix_all_index(names.drop_last(), count, sub, k);
        let (a, b) = choose|a: int, b: int|
            0 <= a < names.drop_last().len() && 0 <= b < sub.len() && front[k] == seq![
                (names.drop_last()[a], count),
            ] + sub[b];
        assert(names.drop_last()[a] == names[a]);
    } else {
        let b = k - front.len();
        assert(prefix_all(names, count, sub)[k] == seq![(names[names.len() - 1], count)] + sub[b]);
    }
}

proof fn lemma_prefix_all_contains(names: Seq<Seq<char>>, count: u32, sub: Seq<Seq<(Seq<char>, u32)>>, a: int, b: int)
    requires
        0 <= a < names.len(),
        0 <= b < sub.len(),
    ensures
        prefix_all(names, count, sub).contains(seq![(names[a], count)] + sub[b]),
    decreases names.len(),
{
    let front = prefix_all(names.drop_last(), count, sub);
    let all = prefix_all(names, count, sub);
    if a < names.len() - 1 {
        lemma_prefix_all_contains(names.drop_last(), count, sub, a, b);
        assert(names.drop_last()[a] == names[a]);
        let k = choose|k: int| 0 <= k < front.len() && front[k] == seq![(names[a], count)] + sub[b];
        assert(all[k] == front[k]);
    } else {
        assert(all[front.len() + b] == seq![(names[a], count)] + sub[b]);
    }
}

/// There are as many partial scenarios as ways of picking one algorithm from
/// each group whose count is not zero.
pub proof fn law_combinations_count(counts: Seq<u32>, groups: Seq<Seq<Seq<char>>>)
    requires
        counts.len() == groups.len(),
    ensures
        combinations(counts, groups).len() == choice_count(counts, groups),
    decreases groups.len(),
{
    if groups.len() > 0 {
        law_combinations_count(counts.drop_first(), groups.drop_first());
        if counts[0] != 0 {
            lemma_prefix_all_len(groups[0], counts[0], combinations(counts.drop_first(), groups.drop_first()));
        }
    }
}

/// Every partial scenario picks one algorithm of each group whose count is not
/// zero, with that count, in group order.
pub proof fn law_combinations_sound(counts: Seq<u32>, groups: Seq<Seq<Seq<char>>>, k: int)
    requires
        counts.len() == groups.len(),
        0 <= k < combinations(counts, groups).len(),
    ensures
        picks_one_per_group(combinations(counts, groups)[k], counts, groups),
    decreases groups.len(),
{
    if groups.len() > 0 {
        let sub = combinations(counts.drop_first(), groups.drop_first());
        if counts[0] == 0 {
            law_combinations_sound(counts.drop_first(), groups.drop_first(), k);
        } else {
            lemma_prefix_all_index(groups[0], counts[0], sub, k);
            let (a, b) = choose|a: int, b: int|
                0 <= a < groups[0].len() && 0 <= b < sub.len() && prefix_all(groups[0], counts[0], sub)[k]
                    == seq![(groups[0][a], counts[0])] + sub[b];
            let c = combinations(counts, groups)[k];
            law_combinations_sound(counts.drop_first(), groups.drop_first(), b);
            assert(c.drop_first() =~= sub[b]);
            assert(c[0] == (groups[0][a], counts[0]));
        }
    }
}

/// Every way of picking one algorithm of each group whose count is not zero
/// is among the partial scenarios.
pub proof fn law_combinations_complete(counts: Seq<u32>, groups: Seq<Seq<Seq<char>>>, c: Seq<(Seq<char>, u32)>)
    requires
        counts.len() == groups.len(),
        picks_one_per_group(c, counts, groups),
    ensures
        combinations(counts, groups).contains(c),
    decreases groups.len(),
{
    if groups.len() == 0 {
        assert(c =~= Seq::<(Seq<char>, u32)>::empty());
        assert(combinations(counts, groups)[0] == c);
    } else {
        let sub = combinations(counts.drop_first(), groups.drop_first());
        if counts[0] == 0 {
            law_combinations_complete(counts.drop_first(), groups.drop_first(), c);
        } else {
            law_combinations_complete(counts.drop_first(), groups.drop_first(), c.drop_first());
            let b = choose|b: int| 0 <= b < sub.len() && sub[b] == c.drop_first();
            let a = choose|a: int| 0 <= a < groups[0].len() && groups[0][a] == c[0].0;
            lemma_prefix_all_contains(groups[0], counts[0], sub, a, b);
            assert(seq![(groups[0][a], counts[0])] + sub[b] =~= c);
        }
    }
}

/// The weights written as `w1-w2-...`.
pub open spec fn weights_label(weights: Seq<u32>) -> Seq<char> {
    join(weights.map_values(|w: u32| decimal(w as nat)), "-"@)
}

/// A copy of a partial scenario.
fn copy_combo(c: &Vec<(String, u32)>) -> (res: Vec<(String, u32)>)
    ensures
        combo_view(res) == combo_view(*c),
{
    let mut res: Vec<(String, u32)> = Vec::new();
    let mut i: usize = 0;
    while i < c.len()
        invariant
            i <= c@.len(),
            combo_view(res) == combo_view(*c).take(i as int),
        decreases c@.len() - i,
    {
        let ghost prev = combo_view(res);
        let name = c[i].0.clone();
        res.push((name, c[i].1));
        assert(combo_view(res) =~= prev.push((c@[i as int].0@, c@[i as int].1)));
        assert(combo_view(*c).take(i + 1) =~= combo_view(*c).take(i as int).push(combo_view(*c)[i as int]));
        i = i + 1;
    }
    assert(combo_view(*c).take(i as int) =~= combo_view(*c));
    res
}

/// The partial scenarios for the groups from position `i` on.
fn combinations_from(counts: &Vec<u32>, groups: &Vec<Vec<String>>, i: usize) -> (res: Vec<
    Vec<(String, u32)>,
>)
    requires
        counts@.len() == groups@.len(),
        i <= groups@.len(),
    ensures
        combos_view(res@) == combinations(counts@.skip(i as int), algo_views(groups@).skip(i as int)),
    decreases groups@.len() - i,
{
    let ghost gs = algo_views(groups@).skip(i as int);
    let ghost cs = counts@.skip(i as int);
    if i == groups.len() {
        let mut res: Vec<Vec<(String, u32)>> = Vec::new();
        res.push(Vec::new());
        assert(combos_view(res@) =~~= seq![Seq::<(Seq<char>, u32)>::empty()]);
        return res;
    }
    let sub = combinations_from(counts, groups, i + 1);
    proof {
        assert(gs.drop_first() =~= algo_views(groups@).skip(i + 1));
        assert(cs.drop_first() =~= counts@.skip(i + 1));
        assert(cs[0] == counts@[i as int]);
        assert(gs[0] == string_views(groups@[i as int]@));
    }
    let count = counts[i];
    if count == 0 {
        return sub;
    }
    let names = &groups[i];
    let ghost subv = combos_view(sub@);
    let mut res: Vec<Vec<(String, u32)>> = Vec::new();
    let mut a: usize = 0;
    while a < names.len()
        invariant
            a <= names@.len(),
            subv == combos_view(sub@),
            combos_view(res@) == prefix_all(string_views(names@).take(a as int), count, subv),
        decreases names@.len() - a,
    {
        let mut b: usize = 0;
        let ghost before = combos_view(res@);
        let ghost name = names@[a as int]@;
        let ghost f = |s: Seq<(Seq<char>, u32)>| seq![(name, count)] + s;
        while b < sub.len()
            invariant
                a < names@.len(),
                b <= sub@.len(),
                subv == combos_view(sub@),
                name == names@[a as int]@,
                f == (|s: Seq<(Seq<char>, u32)>| seq![(name, count)] + s),
                combos_view(res@) == before + subv.take(b as int).map_values(f),
            decreases sub@.len() - b,
        {
            let mut combo: Vec<(String, u32)> = Vec::new();
            let first = names[a].clone();
            combo.push((first, count));
            assert(combo_view(combo) =~= seq![(name, count)]);
            let rest = copy_combo(&sub[b]);
            let mut k: usize = 0;
            while k < rest.len()
                invariant
                    k <= rest@.len(),
                    combo_view(combo) == seq![(name, count)] + combo_view(rest).take(k as int),
                decreases rest@.len() - k,
            {
                let ghost prev = combo_view(combo);
                let nm = rest[k].0.clone();
                combo.push((nm, rest[k].1));
                assert(combo_view(combo) =~= prev.push((rest@[k as int].0@, rest@[k as int].1)));
                assert(combo_view(rest).take(k + 1) =~= combo_view(rest).take(k as int).push(combo_view(rest)[k as int]));
                assert(combo_view(combo) =~= seq![(name, count)] + combo_view(rest).take(k + 1));
                k = k + 1;
            }
            assert(combo_view(rest).take(k as int) =~= combo_view(rest));
            let ghost prev = combos_view(res@);
            assert(subv[b as int] == combo_view(rest));
            assert(combo_view(combo) == f(subv[b as int]));
            res.push(combo);
            assert(combos_view(res@) =~= prev.push(f(subv[b as int])));
            assert(subv.take(b + 1).map_values(f) =~= subv.take(b as int).map_values(f).push(f(subv[b as int])));
            assert(combos_view(res@) =~= before + subv.take(b + 1).map_values(f));
            b = b + 1;
        }
        assert(subv.take(b as int) =~= subv);
        assert(string_views(names@).take(a + 1).drop_last() =~= string_views(names@).take(a as int));
        a = a + 1;
    }
    assert(string_views(names@).take(a as int) =~= string_views(names@));
    res
}

/// The partial scenarios for client groups with the given weights, where
/// `counts[i]` is the number of instances that group `i`'s weight gives: an
/// error when there are groups and the weights do not have one entry per
/// group, and a single empty scenario when there is no group.
pub fn update_recursive(weights: &Vec<u32>, counts: &Vec<u32>, algo_distributions: &Vec<Vec<String>>) -> (res:
    Result<Vec<Vec<(String, u32)>>, GenerationError>)
    requires
        counts@.len() == weights@.len(),
        weights@.len() == algo_distributions@.len() ==> forall|i: int|
            0 <= i < algo_distributions@.len() ==> (#[trigger] algo_distributions@[i])@.len() > 0,
    ensures
        match res {
            Ok(r) => if algo_distributions@.len() == 0 {
                combos_view(r@) == seq![Seq::<(Seq<char>, u32)>::empty()]
            } else {
                weights@.len() == algo_distributions@.len() && combos_view(r@) == combinations(
                    counts@,
                    algo_views(algo_distributions@),
                )
            },
            Err(GenerationError::InvalidWeights(label, n, m)) => {
                &&& algo_distributions@.len() > 0
                &&& weights@.len() != algo_distributions@.len()
                &&& label@ == weights_label(weights@)
                &&& n == weights@.len()
                &&& m == algo_distributions@.len()
            },
        },
{
    if algo_distributions.len() == 0 {
        let mut res: Vec<Vec<(String, u32)>> = Vec::new();
        res.push(Vec::new());
        assert(combos_view(res@) =~~= seq![Seq::<(Seq<char>, u32)>::empty()]);
        return Ok(res);
    }
    if weights.len() != algo_distributions.len() {
        let mut labels: Vec<String> = Vec::new();
        let mut i: usize = 0;
        while i < weights.len()
            invariant
                i <= weights@.len(),
                string_views(labels@) == weights@.take(i as int).map_values(|w: u32| decimal(w as nat)),
            decreases weights@.len() - i,
        {
            let ghost prev = string_views(labels@);
            let d = decimal_string(weights[i] as u128);
            labels.push(d);
            assert(string_views(labels@) =~= prev.push(decimal(weights@[i as int] as nat)));
            assert(weights@.take(i + 1) =~= weights@.take(i as int).push(weights@[i as int]));
            assert(string_views(labels@) =~= weights@.take(i + 1).map_values(|w: u32| decimal(w as nat)));
            i = i + 1;
        }
        assert(weights@.take(i as int) =~= weights@);
        let label = join_strings(&labels, "-");
        return Err(GenerationError::InvalidWeights(label, weights.len(), algo_distributions.len()));
    }
    let r = combinations_from(counts, algo_distributions, 0);
    assert(counts@.skip(0) == counts@);
    assert(algo_views(algo_distributions@).skip(0) == algo_views(algo_distributions@));
    Ok(r)
}


/// The client kinds of a `--client` value: its comma-separated entries, trimmed,
/// empty ones left out.
pub open spec fn client_group(s: Seq<char>) -> Seq<Seq<char>> {
    split_by(s, ',').map_values(|p: Seq<char>| trim(p)).filter(|p: Seq<char>| non_empty(p))
}

/// Reads a `--client` value: the client kinds it lists, or an error when it
/// lists none.
pub fn parse_client_group(s: &str) -> (res: Result<Vec<String>, String>)
    ensures
        if client_group(s@).len() == 0 {
            res matches Err(m) && m@ == "client list cannot be empty"@
        } else {
            res matches Ok(v) && string_views(v@) == client_group(s@)
        },
{
    let cs = chars_of(s);
    let pieces = split_by_char(cs.as_slice(), ',');
    let ghost ps = split_by(s@, ',');
    let ghost trimmed = ps.map_values(|p: Seq<char>| trim(p));
    let ghost ne = |p: Seq<char>| non_empty(p);
    let mut values: Vec<String> = Vec::new();
    let mut i: usize = 0;
    while i < pieces.len()
        invariant
            i <= pieces@.len(),
            views(pieces@) == ps,
            trimmed == ps.map_values(|p: Seq<char>| trim(p)),
            ne == (|p: Seq<char>| non_empty(p)),
            string_views(values@) == trimmed.take(i as int).filter(ne),
        decreases pieces@.len() - i,
    {
        let t = trim_chars(pieces[i].as_slice());
        proof {
            assert(views(pieces@)[i as int] == pieces@[i as int]@);
            assert(trimmed.take(i + 1) =~= trimmed.take(i as int).push(trimmed[i as int]));
            trimmed.take(i as int).lemma_filter_push(trimmed[i as int], ne);
        }
        if t.len() > 0 {
            let ghost prev = string_views(values@);
            let v = string_from_chars(t.as_slice());
            values.push(v);
            assert(string_views(values@) =~= prev.push(t@));
        }
        i = i + 1;
    }
    assert(trimmed.take(i as int) =~= trimmed);
    if values.len() == 0 {
        return Err("client list cannot be empty".to_owned());
    }
    Ok(values)
}

/// Every dash-separated entry of a `--weights` value reads as a `u32`.
pub open spec fn weights_parse(pieces: Seq<Seq<char>>) -> bool {
    forall|i: int| 0 <= i < pieces.len() ==> (#[trigger] parse_unsigned(pieces[i], 10, u32::MAX as nat)) is Ok
}

/// A weights list is accepted exactly when each of its dash-separated pieces
/// reads as a `u32`, whatever the value, zero included.
pub proof fn law_weights_accept_every_u32(pieces: Seq<Seq<char>>)
    ensures
        weights_parse(pieces) <==> forall|i: int|
            0 <= i < pieces.len() ==> (#[trigger] parse_unsigned(pieces[i], 10, u32::MAX as nat)) is Ok,
        (forall|i: int|
            0 <= i < pieces.len() ==> #[trigger] parse_unsigned(pieces[i], 10, u32::MAX as nat)
                == Ok::<nat, crate::text::IntErrorKind>(0)) ==> weights_parse(pieces),
{
}

/// Reads a `--weights` entry such as `90-10`: the weights, or an error naming
/// the input when an entry is not a `u32`.
pub fn parse_weights(input: &str) -> (res: Result<Vec<u32>, String>)
    ensures
        if weights_parse(split_by(input@, '-')) {
            res matches Ok(v) && v@.len() == split_by(input@, '-').len() && forall|i: int|
                0 <= i < v@.len() ==> parse_unsigned(split_by(input@, '-')[i], 10, u32::MAX as nat)
                    == Ok::<nat, crate::text::IntErrorKind>(#[trigger] v@[i] as nat)
        } else {
            res matches Err(m) && m@ == "invalid weights list: "@ + input@
        },
{
    let cs = chars_of(input);
    let pieces = split_by_char(cs.as_slice(), '-');
    let ghost ps = split_by(input@, '-');
    let mut values: Vec<u32> = Vec::new();
    let mut i: usize = 0;
    while i < pieces.len()
        invariant
            i <= pieces@.len(),
            views(pieces@) == ps,
            ps == split_by(input@, '-'),
            values@.len() == i,
            forall|j: int|
                0 <= j < i ==> parse_unsigned(ps[j], 10, u32::MAX as nat) == Ok::<
                    nat,
                    crate::text::IntErrorKind,
                >(#[trigger] values@[j] as nat),
        decreases pieces@.len() - i,
    {
        assert(views(pieces@)[i as int] == pieces@[i as int]@);
        match parse_u32(pieces[i].as_slice()) {
            Ok(w) => {
                values.push(w);
            },
            Err(_) => {
                let mut m = "invalid weights list: ".to_owned();
                append_str(&mut m, input);
                assert(parse_unsigned(ps[i as int], 10, u32::MAX as nat) is Err);
                assert(!weights_parse(ps));
                return Err(m);
            },
        }
        i = i + 1;
    }
    assert forall|j: int| 0 <= j < ps.len() implies (#[trigger] parse_unsigned(
        ps[j],
        10,
        u32::MAX as nat,
    )) is Ok by {
        assert(parse_unsigned(ps[j], 10, u32::MAX as nat) == Ok::<nat, crate::text::IntErrorKind>(
            values@[j] as nat,
        ));
    }
    Ok(values)
}

/// Total number of instances in a partial scenario.
pub open spec fn instances_total(p: Seq<(Seq<char>, u32)>) -> nat
    decreases p.len(),
{
    if p.len() == 0 {
        0
    } else {
        instances_total(p.drop_last()) + (p.last().1 as nat)
    }
}

/// Whether a partial scenario has exactly `target` instances in all.
pub fn has_client_total(partial: &Vec<(String, u32)>, target: u32) -> (res: bool)
    ensures
        res == (instances_total(combo_view(*partial)) == target),
{
    let ghost cv = combo_view(*partial);
    let mut total: u128 = 0;
    let mut i: usize = 0;
    while i < partial.len()
        invariant
            i <= partial@.len(),
            cv == combo_view(*partial),
            total == instances_total(cv.take(i as int)),
            total <= i * 0xffff_ffff,
        decreases partial@.len() - i,
    {
        assert(cv.take(i + 1).drop_last() == cv.take(i as int));
        total = total + partial[i].1 as u128;
        i = i + 1;
    }
    assert(cv.take(i as int) == cv);
    total == target as u128
}

/// The router bandwidth setting for `bw` Mbit/s.
pub open spec fn scenario_bandwidth(bw: u32) -> Seq<char> {
    decimal(bw as nat) + "mbit"@
}

/// The instance entries of a scenario built from a partial scenario.
pub open spec fn instances_of(p: Seq<(Seq<char>, u32)>) -> Seq<(Seq<char>, Seq<char>)>
    decreases p.len(),
{
    if p.len() == 0 {
        Seq::empty()
    } else {
        add_instance_entries(instances_of(p.drop_last()), p.last().0, p.last().1 as nat)
    }
}

/// The client kinds configured in a scenario built from a partial scenario, in
/// order of first appearance.
pub open spec fn config_keys_of(p: Seq<(Seq<char>, u32)>) -> Seq<Seq<char>>
    decreases p.len(),
{
    if p.len() == 0 {
        Seq::empty()
    } else {
        let k = config_keys_of(p.drop_last());
        if find_key(k, p.last().0) is Some {
            k
        } else {
            k.push(p.last().0)
        }
    }
}

/// `c` is the configuration of client kind `name`.
pub open spec fn is_config_for(c: ScenarioConfig, name: Seq<char>) -> bool {
    &&& c.docker.sysctls@.len() == 1
    &&& c.docker.sysctls@[0]@ == "net.ipv4.tcp_congestion_control="@ + name
    &&& c.iperf.bitrate@ == "0"@
}

/// `s` is the finalized scenario for partial scenario `p` at bandwidth `bw`.
pub open spec fn generated_scenario(s: Scenario, p: Seq<(Seq<char>, u32)>, bw: u32) -> bool {
    &&& s.bandwidth_view() == scenario_bandwidth(bw)
    &&& s.delay_view() == "10ms 1ms"@
    &&& s.template_info_view() == crate::scenario::template_notice()
    &&& s.instance_entries() == instances_of(p)
    &&& keys_of(s.config_entries()) == config_keys_of(p)
    &&& forall|i: int|
        0 <= i < s.config_entries().len() ==> is_config_for(
            (#[trigger] s.config_entries()[i]).1,
            s.config_entries()[i].0,
        )
    &&& if instances_of(p).len() == 0 {
        s.description_view() == "No clients."@
    } else {
        exists|table: Seq<(Seq<char>, nat)>|
            crate::scenario::is_count_table(crate::scenario::values_of(instances_of(p)), table)
                && s.description_view() == crate::scenario::describe(table, scenario_bandwidth(bw))
    }
}

/// The keys after setting one.
pub proof fn lemma_insert_keys<V>(e: Seq<(Seq<char>, V)>, k: Seq<char>, v: V)
    ensures
        keys_of(insert_entry(e, k, v)) == if find_key(keys_of(e), k) is Some {
            keys_of(e)
        } else {
            keys_of(e).push(k)
        },
{
    crate::scenario::lemma_find_key(keys_of(e), k);
    match find_key(keys_of(e), k) {
        Some(j) => {
            assert(keys_of(insert_entry(e, k, v)) =~= keys_of(e));
        },
        None => {
            assert(keys_of(insert_entry(e, k, v)) =~= keys_of(e).push(k));
        },
    }
}

/// The finalized scenario for one partial scenario at one bandwidth.
pub fn build_scenario(partial: &Vec<(String, u32)>, bandwidth: u32) -> (res: Scenario)
    ensures
        generated_scenario(res, combo_view(*partial), bandwidth),
{
    let mut max_bandwidth = decimal_string(bandwidth as u128);
    append_str(&mut max_bandwidth, "mbit");
    let mut scenario = Scenario::new(max_bandwidth, "10ms 1ms".to_owned());
    let ghost cv = combo_view(*partial);
    let mut i: usize = 0;
    while i < partial.len()
        invariant
            i <= partial@.len(),
            cv == combo_view(*partial),
            scenario.bandwidth_view() == scenario_bandwidth(bandwidth),
            scenario.delay_view() == "10ms 1ms"@,
            scenario.template_info_view() == crate::scenario::template_notice(),
            scenario.instance_entries() == instances_of(cv.take(i as int)),
            keys_of(scenario.config_entries()) == config_keys_of(cv.take(i as int)),
            forall|j: int|
                0 <= j < scenario.config_entries().len() ==> is_config_for(
                    (#[trigger] scenario.config_entries()[j]).1,
                    scenario.config_entries()[j].0,
                ),
        decreases partial@.len() - i,
    {
        assert(cv.take(i + 1).drop_last() == cv.take(i as int));
        let name = &partial[i].0;
        let config = ScenarioConfig::from(name.as_str());
        let ghost before = scenario.config_entries();
        scenario.add_instances(name.as_str(), config, partial[i].1);
        proof {
            lemma_insert_keys(before, name@, config);
            crate::scenario::lemma_find_key(keys_of(before), name@);
            assert forall|j: int| 0 <= j < scenario.config_entries().len() implies is_config_for(
                (#[trigger] scenario.config_entries()[j]).1,
                scenario.config_entries()[j].0,
            ) by {
                if j < before.len() && before[j].0 != name@ {
                    assert(scenario.config_entries()[j] == before[j]);
                }
            }
        }
        i = i + 1;
    }
    assert(cv.take(i as int) == cv);
    scenario.finalize();
    scenario
}

/// The finalized scenarios: for each partial scenario, in order, one per
/// bandwidth, in order.
pub fn generate_scenarios(bandwidths: &Vec<u32>, partial_scenarii: &Vec<Vec<(String, u32)>>) -> (res: Vec<
    Vec<Scenario>,
>)
    ensures
        res@.len() == partial_scenarii@.len(),
        forall|p: int|
            0 <= p < res@.len() ==> (#[trigger] res@[p])@.len() == bandwidths@.len(),
        forall|p: int, b: int|
            0 <= p < res@.len() && 0 <= b < bandwidths@.len() ==> generated_scenario(
                #[trigger] res@[p]@[b],
                combo_view(partial_scenarii@[p]),
                bandwidths@[b],
            ),
{
    let mut res: Vec<Vec<Scenario>> = Vec::new();
    let mut p: usize = 0;
    while p < partial_scenarii.len()
        invariant
            p <= partial_scenarii@.len(),
            res@.len() == p,
            forall|q: int| 0 <= q < res@.len() ==> (#[trigger] res@[q])@.len() == bandwidths@.len(),
            forall|q: int, b: int|
                0 <= q < res@.len() && 0 <= b < bandwidths@.len() ==> generated_scenario(
                    #[trigger] res@[q]@[b],
                    combo_view(partial_scenarii@[q]),
                    bandwidths@[b],
                ),
        decreases partial_scenarii@.len() - p,
    {
        let mut row: Vec<Scenario> = Vec::new();
        let mut b: usize = 0;
        while b < bandwidths.len()
            invariant
                p < partial_scenarii@.len(),
                b <= bandwidths@.len(),
                row@.len() == b,
                forall|c: int|
                    0 <= c < b ==> generated_scenario(
                        #[trigger] row@[c],
                        combo_view(partial_scenarii@[p as int]),
                        bandwidths@[c],
                    ),
            decreases bandwidths@.len() - b,
        {
            let s = build_scenario(&partial_scenarii[p], bandwidths[b]);
            row.push(s);
            b = b + 1;
        }
        res.push(row);
        p = p + 1;
    }
    res
}

} // verus!
