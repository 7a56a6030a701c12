//! Benchmark scenarios: which congestion-control algorithms run how many
//! client instances behind a router with a given bandwidth and delay.

use vstd::prelude::*;
use crate::text::{
    append_str, decimal, decimal_string, join, join_strings, string_views,
};

verus! {

/// Docker settings of one kind of client.
pub struct DockerConfig {
    pub sysctls: Vec<String>,
}

/// iperf3 settings of one kind of client.
pub struct IperfConfig {
    pub bitrate: String,
}

impl Default for IperfConfig {
    /// Unlimited bitrate (`0`).
    fn default() -> (res: Self)
        ensures
            res.bitrate@ == "0"@,
    {
        IperfConfig { bitrate: "0".to_owned() }
    }
}

/// The configuration of one kind of client.
pub struct ScenarioConfig {
    pub docker: DockerConfig,
    pub iperf: IperfConfig,
}

impl ScenarioConfig {
    /// A client that uses congestion-control algorithm `cca_name`, at unlimited
    /// bitrate.
    pub fn from(cca_name: &str) -> (res: Self)
        ensures
            res.docker.sysctls@.len() == 1,
            res.docker.sysctls@[0]@ == "net.ipv4.tcp_congestion_control="@ + cca_name@,
            res.iperf.bitrate@ == "0"@,
    {
        let mut sysctl = "net.ipv4.tcp_congestion_control=".to_owned();
        append_str(&mut sysctl, cca_name);
        let mut sysctls: Vec<String> = Vec::new();
        sysctls.push(sysctl);
        ScenarioConfig { docker: DockerConfig { sysctls }, iperf: IperfConfig::default() }
    }
}

/// The router's link.
pub struct RouterConfig {
    pub max_bandwidth: String,
    pub delay_config: String,
}

/// The keys of a list of entries, as character sequences.
pub open spec fn string_keys<V>(entries: Seq<(String, V)>) -> Seq<Seq<char>> {
    entries.map_values(|e: (String, V)| e.0@)
}

/// The keys of a list of viewed entries.
pub open spec fn keys_of<V>(entries: Seq<(Seq<char>, V)>) -> Seq<Seq<char>> {
    entries.map_values(|e: (Seq<char>, V)| e.0)
}

/// No key occurs twice.
pub open spec fn unique_keys(keys: Seq<Seq<char>>) -> bool {
    forall|i: int, j: int| 0 <= i < j < keys.len() ==> #[trigger] keys[i] != #[trigger] keys[j]
}

/// The position of key `k`.
pub open spec fn find_key(keys: Seq<Seq<char>>, k: Seq<char>) -> Option<int>
    decreases keys.len(),
{
    if keys.len() == 0 {
        None
    } else if keys.last() == k {
        Some(keys.len() - 1)
    } else {
        find_key(keys.drop_last(), k)
    }
}

/// The entries after setting key `k` to `v`: the entry with that key gets the
/// new value in place, or a new entry is appended.
pub open spec fn insert_entry<V>(entries: Seq<(Seq<char>, V)>, k: Seq<char>, v: V) -> Seq<(Seq<char>, V)> {
    match find_key(keys_of(entries), k) {
        Some(j) => entries.update(j, (k, v)),
        None => entries.push((k, v)),
    }
}

/// What `find_key` finds.
pub proof fn lemma_find_key(keys: Seq<Seq<char>>, k: Seq<char>)
    ensures
        match find_key(keys, k) {
            Some(j) => 0 <= j < keys.len() && keys[j] == k,
            None => forall|i: int| 0 <= i < keys.len() ==> keys[i] != k,
        },
    decreases keys.len(),
{
    if keys.len() > 0 && keys.last() != k {
        lemma_find_key(keys.drop_last(), k);
        assert forall|i: int| 0 <= i < keys.drop_last().len() implies keys[i] == keys.drop_last()[i] by {}
    }
}

/// After setting key `k` to `v`, `k` reads back as `v`.
pub proof fn law_insert_entry_read_back<V>(entries: Seq<(Seq<char>, V)>, k: Seq<char>, v: V)
    ensures
        ({
            let after = insert_entry(entries, k, v);
            find_key(keys_of(after), k) matches Some(j) && 0 <= j < after.len() && after[j].1 == v
        }),
{
    let keys = keys_of(entries);
    let after = insert_entry(entries, k, v);
    lemma_find_key(keys, k);
    match find_key(keys, k) {
        Some(j) => {
            assert(keys_of(after) =~= keys);
        },
        None => {
            assert(keys_of(after) =~= keys.push(k));
        },
    }
}

/// Setting key `k` leaves what every other key reads unchanged (or absent).
pub proof fn law_insert_entry_keeps_others<V>(entries: Seq<(Seq<char>, V)>, k: Seq<char>, v: V, other: Seq<char>)
    requires
        other != k,
    ensures
        ({
            let after = insert_entry(entries, k, v);
            match (find_key(keys_of(after), other), find_key(keys_of(entries), other)) {
                (Some(j1), Some(j0)) => 0 <= j1 < after.len() && after[j1].1 == entries[j0].1,
                (None, None) => true,
                _ => false,
            }
        }),
{
    let keys = keys_of(entries);
    let after = insert_entry(entries, k, v);
    lemma_find_key(keys, k);
    lemma_find_key(keys, other);
    match find_key(keys, k) {
        Some(j) => {
            assert(keys_of(after) =~= keys);
            if let Some(j1) = find_key(keys, other) {
                assert(j1 != j);
                assert(after[j1] == entries[j1]);
            }
        },
        None => {
            assert(keys_of(after) =~= keys.push(k));
            assert(keys_of(after).drop_last() =~= keys);
            if let Some(j1) = find_key(keys, other) {
                assert(after[j1] == entries[j1]);
            }
        },
    }
}

/// Sets `key` to `value` among `entries`: the entry with that key, if any, gets
/// the value in place; otherwise a new entry is appended.
pub fn set_entry<V>(entries: &mut Vec<(String, V)>, key: String, value: V)
    requires
        unique_keys(string_keys(old(entries)@)),
    ensures
        final(entries)@ == match find_key(string_keys(old(entries)@), key@) {
            Some(j) => old(entries)@.update(j, (old(entries)@[j].0, value)),
            None => old(entries)@.push((key, value)),
        },
        string_keys(final(entries)@) == match find_key(string_keys(old(entries)@), key@) {
            Some(j) => string_keys(old(entries)@),
            None => string_keys(old(entries)@).push(key@),
        },
        unique_keys(string_keys(final(entries)@)),
{
    let ghost ks = string_keys(entries@);
    proof {
        lemma_find_key(ks, key@);
    }
    let mut i: usize = entries.len();
    assert(ks.take(i as int) == ks);
    while i > 0
        invariant
            i <= entries@.len(),
            entries@ == old(entries)@,
            ks == string_keys(entries@),
            unique_keys(ks),
            find_key(ks, key@) == find_key(ks.take(i as int), key@),
        decreases i,
    {
        assert(ks.take(i as int).drop_last() == ks.take(i - 1));
        let k = &entries[i - 1].0;
        let a = crate::text::chars_of(k.as_str());
        let b = crate::text::chars_of(key.as_str());
        if crate::text::chars_eq(a.as_slice(), b.as_slice()) {
            assert(find_key(ks, key@) == Some(i - 1));
            entries[i - 1].1 = value;
            assert(string_keys(entries@) =~= ks);
            return;
        }
        i = i - 1;
    }
    assert(ks.take(0) =~= Seq::<Seq<char>>::empty());
    entries.push((key, value));
    assert(string_keys(entries@) =~= ks.push(key@));
}


/// How many times `v` occurs in `vals`.
pub open spec fn count_in(vals: Seq<Seq<char>>, v: Seq<char>) -> nat {
    vals.filter(equal_to(v)).len()
}

/// The test for being `v`.
pub open spec fn equal_to(v: Seq<char>) -> spec_fn(Seq<char>) -> bool {
    |x: Seq<char>| x == v
}

/// `table` lists each distinct value of `vals` once, with its number of
/// occurrences (in any order).
pub open spec fn is_count_table(vals: Seq<Seq<char>>, table: Seq<(Seq<char>, nat)>) -> bool {
    &&& unique_keys(keys_of(table))
    &&& forall|i: int|
        0 <= i < table.len() ==> vals.contains((#[trigger] table[i]).0) && table[i].1 == count_in(
            vals,
            table[i].0,
        )
    &&& forall|j: int| 0 <= j < vals.len() ==> keys_of(table).contains(#[trigger] vals[j])
}

/// A count table with counts as natural numbers.
pub open spec fn table_view(t: Seq<(String, usize)>) -> Seq<(Seq<char>, nat)> {
    t.map_values(|e: (String, usize)| (e.0@, e.1 as nat))
}

/// `Itertools::counts`: each distinct string with its number of occurrences,
/// in the order in which the hash map that counts them is walked.
#[verifier::external_body]
fn value_counts(values: &Vec<String>) -> (res: Vec<(String, usize)>)
    ensures
        is_count_table(string_views(values@), table_view(res@)),
{
    itertools::Itertools::counts(values.iter()).into_iter().map(|(k, c)| (k.clone(), c)).collect()
}

/// Lexicographic order of character sequences by code point (the order of
/// `String`s, which compare their UTF-8 bytes).
pub open spec fn str_le(a: Seq<char>, b: Seq<char>) -> bool
    decreases a.len(),
{
    if a.len() == 0 {
        true
    } else if b.len() == 0 {
        false
    } else if a[0] != b[0] {
        (a[0] as int) < (b[0] as int)
    } else {
        str_le(a.drop_first(), b.drop_first())
    }
}

/// `sorted` holds the elements of `items`, in ascending order.
pub open spec fn is_sorted_permutation(items: Seq<Seq<char>>, sorted: Seq<Seq<char>>) -> bool {
    &&& sorted.to_multiset() == items.to_multiset()
    &&& forall|i: int, j: int| 0 <= i < j < sorted.len() ==> str_le(#[trigger] sorted[i], #[trigger] sorted[j])
}

proof fn lemma_str_le_reflexive(a: Seq<char>)
    ensures
        str_le(a, a),
    decreases a.len(),
{
    if a.len() > 0 {
        lemma_str_le_reflexive(a.drop_first());
    }
}

proof fn lemma_str_le_antisymmetric(a: Seq<char>, b: Seq<char>)
    requires
        str_le(a, b),
        str_le(b, a),
    ensures
        a == b,
    decreases a.len(),
{
    if a.len() > 0 && b.len() > 0 {
        lemma_str_le_antisymmetric(a.drop_first(), b.drop_first());
        assert forall|i: int| 0 <= i < a.len() implies a[i] == b[i] by {
            if i > 0 {
                assert(a[i] == a.drop_first()[i - 1]);
                assert(b[i] == b.drop_first()[i - 1]);
            }
        }
    }
    assert(a =~= b);
}

proof fn lemma_str_le_transitive(a: Seq<char>, b: Seq<char>, c: Seq<char>)
    requires
        str_le(a, b),
        str_le(b, c),
    ensures
        str_le(a, c),
    decreases a.len(),
{
    if a.len() > 0 && b.len() > 0 && c.len() > 0 && a[0] == b[0] && b[0] == c[0] {
        lemma_str_le_transitive(a.drop_first(), b.drop_first(), c.drop_first());
    }
}

proof fn lemma_str_le_total(a: Seq<char>, b: Seq<char>)
    ensures
        str_le(a, b) || str_le(b, a),
    decreases a.len(),
{
    if a.len() > 0 && b.len() > 0 {
        if a[0] == b[0] {
            lemma_str_le_total(a.drop_first(), b.drop_first());
        }
    }
}

/// The order of strings is a total order.
proof fn lemma_str_le_total_ordering()
    ensures
        vstd::relations::total_ordering(|a: Seq<char>, b: Seq<char>| str_le(a, b)),
{
    let leq = |a: Seq<char>, b: Seq<char>| str_le(a, b);
    assert forall|x: Seq<char>| #[trigger] leq(x, x) by {
        lemma_str_le_reflexive(x);
    }
    assert forall|x: Seq<char>, y: Seq<char>| #[trigger] leq(x, y) && #[trigger] leq(y, x) implies x == y by {
        lemma_str_le_antisymmetric(x, y);
    }
    assert forall|x: Seq<char>, y: Seq<char>, z: Seq<char>|
        #[trigger] leq(x, y) && #[trigger] leq(y, z) implies leq(x, z) by {
        lemma_str_le_transitive(x, y, z);
    }
    assert forall|x: Seq<char>, y: Seq<char>| #[trigger] leq(x, y) || #[trigger] leq(y, x) by {
        lemma_str_le_total(x, y);
    }
}

/// How often `v` occurs, as counted by the filter and by the multiset.
proof fn lemma_count_in_multiset(vals: Seq<Seq<char>>, v: Seq<char>)
    ensures
        count_in(vals, v) == vals.to_multiset().count(v),
    decreases vals.len(),
{
    let pred = equal_to(v);
    vals.to_multiset_ensures();
    if vals.len() == 0 {
        assert(vals.filter(pred) =~= Seq::<Seq<char>>::empty());
    } else {
        let p = vals.drop_last();
        lemma_count_in_multiset(p, v);
        assert(vals =~= p.push(vals.last()));
        p.to_multiset_ensures();
        p.lemma_filter_push(vals.last(), pred);
        assert(vals.filter(pred) == p.push(vals.last()).filter(pred));
        if vals.last() == v {
            assert(vals.filter(pred).len() == p.filter(pred).len() + 1);
            assert(vals.to_multiset().count(v) == p.to_multiset().count(v) + 1);
        } else {
            assert(vals.filter(pred).len() == p.filter(pred).len());
            assert(vals.to_multiset().count(v) == p.to_multiset().count(v));
        }
    }
}

/// An entry of one count table is an entry of any count table of the same
/// values.
proof fn lemma_table_entry_in_other(
    vals1: Seq<Seq<char>>,
    vals2: Seq<Seq<char>>,
    t1: Seq<(Seq<char>, nat)>,
    t2: Seq<(Seq<char>, nat)>,
    p: (Seq<char>, nat),
)
    requires
        vals1.to_multiset() == vals2.to_multiset(),
        is_count_table(vals1, t1),
        is_count_table(vals2, t2),
        t1.contains(p),
    ensures
        t2.contains(p),
{
    let i = choose|i: int| 0 <= i < t1.len() && t1[i] == p;
    let name = p.0;
    assert(vals1.contains(t1[i].0));
    vals1.to_multiset_ensures();
    vals2.to_multiset_ensures();
    assert(vals1.to_multiset().count(name) > 0);
    assert(vals2.to_multiset().count(name) > 0);
    assert(vals2.contains(name));
    let k = choose|k: int| 0 <= k < vals2.len() && vals2[k] == name;
    assert(keys_of(t2).contains(vals2[k]));
    let j = choose|j: int| 0 <= j < keys_of(t2).len() && keys_of(t2)[j] == name;
    lemma_count_in_multiset(vals1, name);
    lemma_count_in_multiset(vals2, name);
    assert(t2[j].1 == count_in(vals2, t2[j].0));
    assert(t2[j] == p);
}

/// A count table holds no entry twice.
proof fn lemma_table_no_duplicates(t: Seq<(Seq<char>, nat)>)
    requires
        unique_keys(keys_of(t)),
    ensures
        t.no_duplicates(),
{
    assert forall|i: int, j: int| 0 <= i < t.len() && 0 <= j < t.len() && i != j implies t[i] != t[j] by {
        if i < j {
            assert(keys_of(t)[i] != keys_of(t)[j]);
        } else {
            assert(keys_of(t)[j] != keys_of(t)[i]);
        }
    }
}

/// Two count tables of the same values hold the same entries.
proof fn lemma_count_tables_agree(
    vals1: Seq<Seq<char>>,
    vals2: Seq<Seq<char>>,
    t1: Seq<(Seq<char>, nat)>,
    t2: Seq<(Seq<char>, nat)>,
)
    requires
        vals1.to_multiset() == vals2.to_multiset(),
        is_count_table(vals1, t1),
        is_count_table(vals2, t2),
    ensures
        t1.to_multiset() == t2.to_multiset(),
{
    lemma_table_no_duplicates(t1);
    lemma_table_no_duplicates(t2);
    t1.lemma_multiset_has_no_duplicates();
    t2.lemma_multiset_has_no_duplicates();
    t1.to_multiset_ensures();
    t2.to_multiset_ensures();
    assert forall|p: (Seq<char>, nat)| t1.to_multiset().count(p) == t2.to_multiset().count(p) by {
        if t1.contains(p) {
            lemma_table_entry_in_other(vals1, vals2, t1, t2, p);
        }
        if t2.contains(p) {
            lemma_table_entry_in_other(vals2, vals1, t2, t1, p);
        }
    }
    assert(t1.to_multiset() =~= t2.to_multiset());
}

/// Sequences with the same elements keep the same elements once mapped.
proof fn lemma_map_multiset(x: Seq<(Seq<char>, nat)>, y: Seq<(Seq<char>, nat)>)
    requires
        x.to_multiset() == y.to_multiset(),
    ensures
        x.map_values(|e: (Seq<char>, nat)| file_label(e)).to_multiset() == y.map_values(
            |e: (Seq<char>, nat)| file_label(e),
        ).to_multiset(),
    decreases x.len(),
{
    let f = |e: (Seq<char>, nat)| file_label(e);
    x.to_multiset_ensures();
    y.to_multiset_ensures();
    if x.len() == 0 {
        assert(x.map_values(f) =~= y.map_values(f));
    } else {
        let a = x.last();
        let xd = x.drop_last();
        assert(x =~= xd.push(a));
        xd.to_multiset_ensures();
        assert(y.to_multiset().count(a) > 0);
        let i = choose|i: int| 0 <= i < y.len() && y[i] == a;
        let y2 = y.remove(i);
        assert(y2.to_multiset() =~= xd.to_multiset());
        lemma_map_multiset(xd, y2);
        let mx = x.map_values(f);
        let my = y.map_values(f);
        assert(mx =~= xd.map_values(f).push(f(a)));
        xd.map_values(f).to_multiset_ensures();
        my.to_multiset_ensures();
        assert(my.remove(i) =~= y2.map_values(f));
        assert(my.to_multiset() =~= y2.map_values(f).to_multiset().insert(f(a)));
    }
}

/// The file name of a scenario depends only on how many instances of each
/// kind it has (and on its router settings), not on the order in which they
/// were added nor on the order in which their counts are listed.
pub proof fn law_file_name_canonical(
    kinds1: Seq<Seq<char>>,
    kinds2: Seq<Seq<char>>,
    table1: Seq<(Seq<char>, nat)>,
    table2: Seq<(Seq<char>, nat)>,
    sorted1: Seq<Seq<char>>,
    sorted2: Seq<Seq<char>>,
)
    requires
        kinds1.to_multiset() == kinds2.to_multiset(),
        is_count_table(kinds1, table1),
        is_count_table(kinds2, table2),
        is_sorted_permutation(table1.map_values(|e: (Seq<char>, nat)| file_label(e)), sorted1),
        is_sorted_permutation(table2.map_values(|e: (Seq<char>, nat)| file_label(e)), sorted2),
    ensures
        sorted1 == sorted2,
{
    lemma_count_tables_agree(kinds1, kinds2, table1, table2);
    lemma_map_multiset(table1, table2);
    let leq = |a: Seq<char>, b: Seq<char>| str_le(a, b);
    lemma_str_le_total_ordering();
    assert(vstd::relations::sorted_by(sorted1, leq));
    assert(vstd::relations::sorted_by(sorted2, leq));
    vstd::seq_lib::lemma_sorted_unique(sorted1, sorted2, leq);
}

/// `Itertools::sorted`: the strings in ascending order.
#[verifier::external_body]
fn sorted_strings(parts: Vec<String>) -> (res: Vec<String>)
    ensures
        is_sorted_permutation(string_views(parts@), string_views(res@)),
{
    itertools::Itertools::sorted(parts.into_iter()).collect()
}

/// The instance name `name` followed by the number `i` in decimal.
pub open spec fn instance_name(name: Seq<char>, i: nat) -> Seq<char> {
    name + decimal(i)
}

/// The instance entries after adding `count` instances of client kind `name`.
pub open spec fn add_instance_entries(
    entries: Seq<(Seq<char>, Seq<char>)>,
    name: Seq<char>,
    count: nat,
) -> Seq<(Seq<char>, Seq<char>)>
    decreases count,
{
    if count == 0 {
        entries
    } else {
        insert_entry(add_instance_entries(entries, name, (count - 1) as nat), instance_name(name, (count - 1) as nat), name)
    }
}

/// After adding `count` instances of kind `name`, each of `name0` ...
/// `name<count-1>` is an instance of kind `name`.
pub proof fn law_added_instances_present(
    entries: Seq<(Seq<char>, Seq<char>)>,
    name: Seq<char>,
    count: nat,
    i: nat,
)
    requires
        i < count,
    ensures
        ({
            let after = add_instance_entries(entries, name, count);
            find_key(keys_of(after), instance_name(name, i)) matches Some(j) && 0 <= j < after.len()
                && after[j].1 == name
        }),
    decreases count,
{
    let prev = add_instance_entries(entries, name, (count - 1) as nat);
    let last = instance_name(name, (count - 1) as nat);
    if i == count - 1 {
        law_insert_entry_read_back(prev, last, name);
    } else {
        law_added_instances_present(entries, name, (count - 1) as nat, i);
        let key = instance_name(name, i);
        if key == last {
            assert(key.subrange(name.len() as int, key.len() as int) == decimal(i));
            assert(last.subrange(name.len() as int, last.len() as int) == decimal((count - 1) as nat));
            crate::text::lemma_decimal_injective(i, (count - 1) as nat);
        }
        law_insert_entry_keeps_others(prev, last, name, key);
    }
}

/// Setting a key to a value it already has changes nothing.
proof fn lemma_insert_entry_present<V>(entries: Seq<(Seq<char>, V)>, k: Seq<char>, v: V)
    requires
        find_key(keys_of(entries), k) matches Some(j) && 0 <= j < entries.len() && entries[j].1 == v,
    ensures
        insert_entry(entries, k, v) == entries,
{
    lemma_find_key(keys_of(entries), k);
    let j = find_key(keys_of(entries), k)->Some_0;
    assert(keys_of(entries)[j] == entries[j].0);
    assert(insert_entry(entries, k, v) =~= entries);
}

/// Adding instances `name0` .. `name<m-1>` to entries that already hold the
/// first `count` instances of `name` (`m <= count`) changes nothing.
proof fn lemma_add_instances_present(
    entries: Seq<(Seq<char>, Seq<char>)>,
    name: Seq<char>,
    count: nat,
    m: nat,
)
    requires
        m <= count,
    ensures
        add_instance_entries(add_instance_entries(entries, name, count), name, m)
            == add_instance_entries(entries, name, count),
    decreases m,
{
    if m > 0 {
        lemma_add_instances_present(entries, name, count, (m - 1) as nat);
        law_added_instances_present(entries, name, count, (m - 1) as nat);
        lemma_insert_entry_present(
            add_instance_entries(entries, name, count),
            instance_name(name, (m - 1) as nat),
            name,
        );
    }
}

/// Adding the same instances of the same kind, with the same configuration,
/// twice in a row gives the same configurations and instances as adding them
/// once.
pub proof fn law_add_instances_idempotent<C>(
    configs: Seq<(Seq<char>, C)>,
    instances: Seq<(Seq<char>, Seq<char>)>,
    name: Seq<char>,
    config: C,
    count: nat,
)
    ensures
        insert_entry(insert_entry(configs, name, config), name, config) == insert_entry(
            configs,
            name,
            config,
        ),
        add_instance_entries(add_instance_entries(instances, name, count), name, count)
            == add_instance_entries(instances, name, count),
{
    law_insert_entry_read_back(configs, name, config);
    lemma_insert_entry_present(insert_entry(configs, name, config), name, config);
    lemma_add_instances_present(instances, name, count, count);
}

/// The value parts of viewed instance entries.
pub open spec fn values_of(entries: Seq<(Seq<char>, Seq<char>)>) -> Seq<Seq<char>> {
    entries.map_values(|e: (Seq<char>, Seq<char>)| e.1)
}

/// `"<count> <name>"`, with a plural `s` for more than one.
pub open spec fn count_label(e: (Seq<char>, nat)) -> Seq<char> {
    decimal(e.1) + " "@ + e.0 + if e.1 > 1 {
        "s"@
    } else {
        ""@
    }
}

/// The description of a scenario with clients, from their count table.
pub open spec fn describe(table: Seq<(Seq<char>, nat)>, bandwidth: Seq<char>) -> Seq<char> {
    join(table.map_values(|e: (Seq<char>, nat)| count_label(e)), ", "@) + " sharing a common "@
        + bandwidth + " link."@
}

/// The description lists the count label of each kind, in table order and
/// separated by `", "`, then names the shared link: one kind gives its label
/// alone, and one more kind appends `", "` and its label to the list.
pub proof fn law_description_lists_counts(table: Seq<(Seq<char>, nat)>, e: (Seq<char>, nat), bandwidth: Seq<char>)
    ensures
        describe(seq![e], bandwidth) == count_label(e) + " sharing a common "@ + bandwidth + " link."@,
        table.len() > 0 ==> describe(table.push(e), bandwidth) == describe(table, bandwidth).take(
            describe(table, bandwidth).len() - (" sharing a common "@ + bandwidth + " link."@).len(),
        ) + ", "@ + count_label(e) + " sharing a common "@ + bandwidth + " link."@,
{
    let f = |x: (Seq<char>, nat)| count_label(x);
    let suffix = " sharing a common "@ + bandwidth + " link."@;
    assert(seq![e].map_values(f) =~= seq![count_label(e)]);
    assert(describe(seq![e], bandwidth) =~= count_label(e) + suffix);
    if table.len() > 0 {
        let labels = table.map_values(f);
        assert(table.push(e).map_values(f) =~= labels.push(count_label(e)));
        assert(labels.push(count_label(e)).drop_last() =~= labels);
        let l = join(labels, ", "@);
        assert(join(labels.push(count_label(e)), ", "@) == l + ", "@ + count_label(e));
        assert(describe(table, bandwidth) =~= l + suffix);
        assert((l + suffix).take(l.len() as int) =~= l);
        assert(describe(table.push(e), bandwidth) =~= l + ", "@ + count_label(e) + suffix);
    }
}

/// `"<count><name>"`, as client groups appear in file names.
pub open spec fn file_label(e: (Seq<char>, nat)) -> Seq<char> {
    decimal(e.1) + e.0
}

/// `s` with every space replaced by `+`.
pub open spec fn spaces_to_plus(s: Seq<char>) -> Seq<char> {
    s.map_values(|c: char| if c == ' ' { '+' } else { c })
}

/// The file name of a scenario: the client groups (or `no-clients`), the
/// bandwidth and the delay settings.
pub open spec fn scenario_file_name(clients: Seq<char>, bandwidth: Seq<char>, delay: Seq<char>) -> Seq<char> {
    clients + "@"@ + bandwidth + "+"@ + spaces_to_plus(delay) + ".json"@
}

/// A benchmark scenario: its description, the configuration of each kind of
/// client, the client instances (instance name to client kind) and the router.
pub struct Scenario {
    description: String,
    configs: Vec<(String, ScenarioConfig)>,
    instances: Vec<(String, String)>,
    router: RouterConfig,
    template_generated_info: String,
}

/// Viewed instance entries.
pub open spec fn instance_views(e: Seq<(String, String)>) -> Seq<(Seq<char>, Seq<char>)> {
    e.map_values(|x: (String, String)| (x.0@, x.1@))
}

/// Viewed configuration entries.
pub open spec fn config_views(e: Seq<(String, ScenarioConfig)>) -> Seq<(Seq<char>, ScenarioConfig)> {
    e.map_values(|x: (String, ScenarioConfig)| (x.0@, x.1))
}

/// The notice that a scenario file is generated from a template.
pub open spec fn template_notice() -> Seq<char> {
    "This file is generated from a template. Do not edit directly. Instead, edit the template with a `.j2` extension."@
}

impl Scenario {
    #[verifier::type_invariant]
    closed spec fn inv(self) -> bool {
        &&& unique_keys(string_keys(self.configs@))
        &&& unique_keys(string_keys(self.instances@))
    }

    /// The description.
    pub closed spec fn description_view(&self) -> Seq<char> {
        self.description@
    }

    /// Client kind name to configuration, in insertion order.
    pub closed spec fn config_entries(&self) -> Seq<(Seq<char>, ScenarioConfig)> {
        config_views(self.configs@)
    }

    /// Instance name to client kind, in insertion order.
    pub closed spec fn instance_entries(&self) -> Seq<(Seq<char>, Seq<char>)> {
        instance_views(self.instances@)
    }

    /// The router's bandwidth setting.
    pub closed spec fn bandwidth_view(&self) -> Seq<char> {
        self.router.max_bandwidth@
    }

    /// The router's delay setting.
    pub closed spec fn delay_view(&self) -> Seq<char> {
        self.router.delay_config@
    }

    /// The template notice.
    pub closed spec fn template_info_view(&self) -> Seq<char> {
        self.template_generated_info@
    }

    /// A scenario without clients behind a router with the given settings.
    pub fn new(max_bandwidth: String, delay_config: String) -> (res: Self)
        ensures
            res.description_view() == "No clients."@,
            res.config_entries().len() == 0,
            res.instance_entries().len() == 0,
            res.bandwidth_view() == max_bandwidth@,
            res.delay_view() == delay_config@,
            res.template_info_view() == template_notice(),
    {
        Scenario {
            description: "No clients.".to_owned(),
            configs: Vec::new(),
            instances: Vec::new(),
            router: RouterConfig { max_bandwidth, delay_config },
            template_generated_info: "This file is generated from a template. Do not edit directly. Instead, edit the template with a `.j2` extension.".to_owned(),
        }
    }

    /// Adds `count` instances of client kind `name`, named `name0`, `name1`, ...,
    /// and sets the kind's configuration.
    pub fn add_instances(&mut self, name: &str, config: ScenarioConfig, count: u32)
        ensures
            final(self).config_entries() == insert_entry(old(self).config_entries(), name@, config),
            final(self).instance_entries() == add_instance_entries(
                old(self).instance_entries(),
                name@,
                count as nat,
            ),
            final(self).description_view() == old(self).description_view(),
            final(self).bandwidth_view() == old(self).bandwidth_view(),
            final(self).delay_view() == old(self).delay_view(),
            final(self).template_info_view() == old(self).template_info_view(),
            unique_keys(keys_of(final(self).config_entries())),
            unique_keys(keys_of(final(self).instance_entries())),
    {
        proof {
            use_type_invariant(&*self);
        }
        let mut configs: Vec<(String, ScenarioConfig)> = Vec::new();
        std::mem::swap(&mut configs, &mut self.configs);
        let ghost c0 = configs@;
        set_entry(&mut configs, name.to_owned(), config);
        proof {
            lemma_find_key(string_keys(c0), name@);
            assert(keys_of(config_views(c0)) =~= string_keys(c0));
            assert(config_views(configs@) =~= insert_entry(config_views(c0), name@, config));
        }
        self.configs = configs;
        let mut instances: Vec<(String, String)> = Vec::new();
        std::mem::swap(&mut instances, &mut self.instances);
        let ghost i0 = instance_views(instances@);
        let mut i: u32 = 0;
        while i < count
            invariant
                i <= count,
                unique_keys(string_keys(instances@)),
                instance_views(instances@) == add_instance_entries(i0, name@, i as nat),
            decreases count - i,
        {
            let mut key = name.to_owned();
            let d = decimal_string(i as u128);
            append_str(&mut key, d.as_str());
            let ghost before = instances@;
            set_entry(&mut instances, key, name.to_owned());
            proof {
                lemma_find_key(string_keys(before), instance_name(name@, i as nat));
                assert(keys_of(instance_views(before)) =~= string_keys(before));
                assert(instance_views(instances@) =~= insert_entry(
                    instance_views(before),
                    instance_name(name@, i as nat),
                    name@,
                ));
            }
            i = i + 1;
        }
        self.instances = instances;
        assert(keys_of(config_views(self.configs@)) =~= string_keys(self.configs@));
        assert(keys_of(instance_views(self.instances@)) =~= string_keys(self.instances@));
    }

    /// The client kind of every instance, in instance order.
    fn instance_kinds(&self) -> (res: Vec<String>)
        ensures
            string_views(res@) == values_of(self.instance_entries()),
    {
        let mut res: Vec<String> = Vec::new();
        let mut i: usize = 0;
        while i < self.instances.len()
            invariant
                i <= self.instances@.len(),
                string_views(res@) == values_of(instance_views(self.instances@)).take(i as int),
            decreases self.instances@.len() - i,
        {
            res.push(self.instances[i].1.clone());
            proof {
                let all = values_of(instance_views(self.instances@));
                assert(all.take(i + 1) =~= all.take(i as int).push(all[i as int]));
                assert(string_views(res@) =~= string_views(res@).drop_last().push(res@.last()@));
            }
            i = i + 1;
        }
        proof {
            let all = values_of(instance_views(self.instances@));
            assert(all.take(i as int) =~= all);
        }
        res
    }

    /// Sets the description from the instances: `No clients.` when there is none,
    /// otherwise how many instances of each kind share the router's link.
    pub fn finalize(&mut self)
        ensures
            if old(self).instance_entries().len() == 0 {
                final(self).description_view() == "No clients."@
            } else {
                exists|table: Seq<(Seq<char>, nat)>|
                    is_count_table(values_of(old(self).instance_entries()), table)
                        && final(self).description_view() == describe(table, old(self).bandwidth_view())
            },
            final(self).config_entries() == old(self).config_entries(),
            final(self).instance_entries() == old(self).instance_entries(),
            final(self).bandwidth_view() == old(self).bandwidth_view(),
            final(self).delay_view() == old(self).delay_view(),
            final(self).template_info_view() == old(self).template_info_view(),
    {
        proof {
            use_type_invariant(&*self);
        }
        if self.instances.len() == 0 {
            self.description = "No clients.".to_owned();
            return;
        }
        let kinds = self.instance_kinds();
        let table = value_counts(&kinds);
        let ghost tv = table_view(table@);
        let mut parts: Vec<String> = Vec::new();
        let mut i: usize = 0;
        while i < table.len()
            invariant
                i <= table@.len(),
                tv == table_view(table@),
                string_views(parts@) == tv.take(i as int).map_values(
                    |e: (Seq<char>, nat)| count_label(e),
                ),
            decreases table@.len() - i,
        {
            let (name, count) = (&table[i].0, table[i].1);
            let mut part = decimal_string(count as u128);
            append_str(&mut part, " ");
            append_str(&mut part, name.as_str());
            if count > 1 {
                append_str(&mut part, "s");
            } else {
                append_str(&mut part, "");
            }
            parts.push(part);
            proof {
                let f = |e: (Seq<char>, nat)| count_label(e);
                assert(tv.take(i + 1).map_values(f) =~= tv.take(i as int).map_values(f).push(f(tv[i as int])));
                assert(string_views(parts@) =~= string_views(parts@).drop_last().push(parts@.last()@));
            }
            i = i + 1;
        }
        assert(tv.take(i as int) =~= tv);
        let mut description = join_strings(&parts, ", ");
        append_str(&mut description, " sharing a common ");
        append_str(&mut description, self.router.max_bandwidth.as_str());
        append_str(&mut description, " link.");
        assert(description@ == describe(tv, old(self).bandwidth_view()));
        self.description = description;
        assert(is_count_table(values_of(old(self).instance_entries()), tv));
        assert(self.description_view() == describe(tv, old(self).bandwidth_view()));
    }

    /// The scenario's file name: `<groups>@<bandwidth>+<delay>.json`, where the
    /// groups are `<count><kind>` joined by `+` in ascending order (or
    /// `no-clients`) and the delay has its spaces replaced by `+`.
    pub fn get_filename(&self) -> (res: String)
        ensures
            if self.instance_entries().len() == 0 {
                res@ == scenario_file_name("no-clients"@, self.bandwidth_view(), self.delay_view())
            } else {
                exists|table: Seq<(Seq<char>, nat)>, sorted: Seq<Seq<char>>|
                    is_count_table(values_of(self.instance_entries()), table) && is_sorted_permutation(
                        table.map_values(|e: (Seq<char>, nat)| file_label(e)),
                        sorted,
                    ) && res@ == scenario_file_name(
                        join(sorted, "+"@),
                        self.bandwidth_view(),
                        self.delay_view(),
                    )
            },
    {
        let mut clients: String;
        let ghost mut witness: (Seq<(Seq<char>, nat)>, Seq<Seq<char>>) = (Seq::empty(), Seq::empty());
        if self.instances.len() == 0 {
            clients = "no-clients".to_owned();
        } else {
            let kinds = self.instance_kinds();
            let table = value_counts(&kinds);
            let ghost tv = table_view(table@);
            let mut labels: Vec<String> = Vec::new();
            let mut i: usize = 0;
            while i < table.len()
                invariant
                    i <= table@.len(),
                    tv == table_view(table@),
                    string_views(labels@) == tv.take(i as int).map_values(
                        |e: (Seq<char>, nat)| file_label(e),
                    ),
                decreases table@.len() - i,
            {
                let mut label = decimal_string(table[i].1 as u128);
                append_str(&mut label, table[i].0.as_str());
                labels.push(label);
                proof {
                    let f = |e: (Seq<char>, nat)| file_label(e);
                    assert(tv.take(i + 1).map_values(f) =~= tv.take(i as int).map_values(f).push(f(tv[i as int])));
                    assert(string_views(labels@) =~= string_views(labels@).drop_last().push(labels@.last()@));
                }
                i = i + 1;
            }
            assert(tv.take(i as int) =~= tv);
            let sorted = sorted_strings(labels);
            clients = join_strings(&sorted, "+");
            proof {
                witness = (tv, string_views(sorted@));
            }
        }
        let delay = crate::text::chars_of(self.router.delay_config.as_str());
        let mut delay_plus: Vec<char> = Vec::new();
        let mut k: usize = 0;
        while k < delay.len()
            invariant
                k <= delay@.len(),
                delay_plus@ == spaces_to_plus(delay@.take(k as int)),
            decreases delay@.len() - k,
        {
            let c = delay[k];
            delay_plus.push(if c == ' ' { '+' } else { c });
            assert(spaces_to_plus(delay@.take(k + 1)) =~= spaces_to_plus(delay@.take(k as int)).push(
                if c == ' ' { '+' } else { c },
            ));
            k = k + 1;
        }
        assert(delay@.take(k as int) == delay@);
        let delay_str = crate::text::string_from_chars(delay_plus.as_slice());
        let mut res = clients;
        append_str(&mut res, "@");
        append_str(&mut res, self.router.max_bandwidth.as_str());
        append_str(&mut res, "+");
        append_str(&mut res, delay_str.as_str());
        append_str(&mut res, ".json");
        proof {
            if self.instance_entries().len() != 0 {
                assert(is_count_table(values_of(self.instance_entries()), witness.0));
                assert(is_sorted_permutation(
                    witness.0.map_values(|e: (Seq<char>, nat)| file_label(e)),
                    witness.1,
                ));
                assert(res@ == scenario_file_name(
                    join(witness.1, "+"@),
                    self.bandwidth_view(),
                    self.delay_view(),
                ));
            }
        }
        res
    }

    /// The description.
    pub fn description(&self) -> (res: &str)
        ensures
            res@ == self.description_view(),
    {
        self.description.as_str()
    }

    /// The configuration entries, in insertion order.
    pub fn configs(&self) -> (res: &Vec<(String, ScenarioConfig)>)
        ensures
            config_views(res@) == self.config_entries(),
    {
        &self.configs
    }

    /// The instance entries, in insertion order.
    pub fn instances(&self) -> (res: &Vec<(String, String)>)
        ensures
            instance_views(res@) == self.instance_entries(),
    {
        &self.instances
    }

    /// The router settings.
    pub fn router(&self) -> (res: &RouterConfig)
        ensures
            res.max_bandwidth@ == self.bandwidth_view(),
            res.delay_config@ == self.delay_view(),
    {
        &self.router
    }

    /// The template notice.
    pub fn template_generated_info(&self) -> (res: &str)
        ensures
            res@ == self.template_info_view(),
    {
        self.template_generated_info.as_str()
    }
}

} // verus!
