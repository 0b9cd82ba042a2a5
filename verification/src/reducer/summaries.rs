use vstd::prelude::*;
use crate::smap::StrMap;
use crate::text::{append_chars, chars_of, lex_lt, nat_text, string_from_chars, u64_chars};

verus! {

/// How many times `name` occurs among `names`.
pub open spec fn occurrences(names: Seq<Seq<char>>, name: Seq<char>) -> nat
    decreases names.len(),
{
    if names.len() == 0 {
        0
    } else {
        occurrences(names.drop_last(), name) + if names.last() == name { 1nat } else { 0nat }
    }
}

/// A name as listed: bare when it occurs once, otherwise with its count.
pub open spec fn name_label(name: Seq<char>, count: nat) -> Seq<char> {
    if count == 1 { name } else { name + " (x"@ + nat_text(count) + ")"@ }
}

/// Labels joined by a separator.
pub open spec fn join_with(labels: Seq<Seq<char>>, sep: Seq<char>) -> Seq<char>
    decreases labels.len(),
{
    if labels.len() == 0 {
        Seq::empty()
    } else if labels.len() == 1 {
        labels[0]
    } else {
        join_with(labels.drop_last(), sep) + sep + labels.last()
    }
}

/// An English list: `a`, `a and b`, `a, b, and c`.
pub open spec fn english_list(labels: Seq<Seq<char>>) -> Option<Seq<char>> {
    if labels.len() == 0 {
        None
    } else if labels.len() == 1 {
        Some(labels[0])
    } else if labels.len() == 2 {
        Some(labels[0] + " and "@ + labels[1])
    } else {
        Some(join_with(labels.drop_last(), ", "@) + ", and "@ + labels.last())
    }
}

pub open spec fn strictly_sorted(keys: Seq<Seq<char>>) -> bool {
    forall|i: int, j: int| 0 <= i < j < keys.len() ==> lex_lt(#[trigger] keys[i], #[trigger] keys[j])
}

/// The summary of a list of names: each distinct name once, in ascending
/// order, with its count.
pub open spec fn spec_summary(names: Seq<Seq<char>>, keys: Seq<Seq<char>>) -> Option<Seq<char>> {
    english_list(keys.map_values(|k: Seq<char>| name_label(k, occurrences(names, k))))
}

/// The summary of a list of names as text, empty when there is nothing to
/// list.
pub open spec fn summary_or_empty(names: Seq<Seq<char>>) -> Seq<char> {
    let keys = choose|keys: Seq<Seq<char>>| strictly_sorted(keys) && keys.to_set() == names.to_set();
    match spec_summary(names, keys) {
        Some(t) => t,
        None => Seq::empty(),
    }
}

/// Two strictly ascending lists of the same names are the same list.
pub proof fn lemma_sorted_unique(a: Seq<Seq<char>>, b: Seq<Seq<char>>)
    requires
        strictly_sorted(a),
        strictly_sorted(b),
        a.to_set() == b.to_set(),
    ensures
        a == b,
    decreases a.len(),
{
    if a.len() == 0 {
        if b.len() > 0 {
            assert(b.to_set().contains(b[0]));
        }
        assert(a =~= b);
    } else {
        assert(a.to_set().contains(a[0]));
        assert(b.len() > 0);
        assert(b.to_set().contains(b[0]));
        let j = choose|j: int| 0 <= j < b.len() && b[j] == a[0];
        let k = choose|k: int| 0 <= k < a.len() && a[k] == b[0];
        if j > 0 {
            assert(lex_lt(b[0], b[j]));
            if k == 0 {
                crate::text::lemma_lex_irrefl(a[0]);
            } else {
                assert(lex_lt(a[0], a[k]));
                crate::text::lemma_lex_asym(a[0], a[k]);
            }
        }
        assert(a[0] == b[0]);
        let a1 = a.drop_first();
        let b1 = b.drop_first();
        assert(strictly_sorted(a1)) by {
            assert forall|i: int, l: int| 0 <= i < l < a1.len() implies lex_lt(#[trigger] a1[i], #[trigger] a1[l]) by {
                assert(a1[i] == a[i + 1] && a1[l] == a[l + 1]);
            }
        }
        assert(strictly_sorted(b1)) by {
            assert forall|i: int, l: int| 0 <= i < l < b1.len() implies lex_lt(#[trigger] b1[i], #[trigger] b1[l]) by {
                assert(b1[i] == b[i + 1] && b1[l] == b[l + 1]);
            }
        }
        assert(a1.to_set() =~= b1.to_set()) by {
            assert forall|x: Seq<char>| a1.to_set().contains(x) implies b1.to_set().contains(x) by {
                let i = choose|i: int| 0 <= i < a1.len() && a1[i] == x;
                assert(a[i + 1] == x);
                assert(lex_lt(a[0], a[i + 1]));
                assert(b.to_set().contains(x));
                let m = choose|m: int| 0 <= m < b.len() && b[m] == x;
                if m == 0 {
                    crate::text::lemma_lex_irrefl(x);
                }
                assert(b1[m - 1] == x);
            }
            assert forall|x: Seq<char>| b1.to_set().contains(x) implies a1.to_set().contains(x) by {
                let i = choose|i: int| 0 <= i < b1.len() && b1[i] == x;
                assert(b[i + 1] == x);
                assert(lex_lt(b[0], b[i + 1]));
                assert(a.to_set().contains(x));
                let m = choose|m: int| 0 <= m < a.len() && a[m] == x;
                if m == 0 {
                    crate::text::lemma_lex_irrefl(x);
                }
                assert(a1[m - 1] == x);
            }
        }
        lemma_sorted_unique(a1, b1);
        assert(a =~= b) by {
            assert forall|i: int| 0 <= i < a.len() implies a[i] == b[i] by {
                if i > 0 {
                    assert(a[i] == a1[i - 1] && b[i] == b1[i - 1]);
                }
            }
        }
    }
}

proof fn lemma_occurrences_push(names: Seq<Seq<char>>, x: Seq<char>, k: Seq<char>)
    ensures
        occurrences(names.push(x), k) == occurrences(names, k) + if x == k { 1nat } else { 0nat },
{
    assert(names.push(x).drop_last() =~= names);
}

proof fn lemma_occurrences_pos(names: Seq<Seq<char>>, k: Seq<char>)
    ensures
        occurrences(names, k) > 0 <==> names.contains(k),
    decreases names.len(),
{
    if names.len() > 0 {
        lemma_occurrences_pos(names.drop_last(), k);
        if names.drop_last().contains(k) {
            let i = choose|i: int| 0 <= i < names.drop_last().len() && names.drop_last()[i] == k;
            assert(names[i] == k);
        }
        if names.contains(k) {
            let i = choose|i: int| 0 <= i < names.len() && names[i] == k;
            if i < names.len() - 1 {
                assert(names.drop_last()[i] == k);
            }
        }
    }
}

fn join_chars(labels: &Vec<Vec<char>>, n: usize, sep: &Vec<char>) -> (r: Vec<char>)
    requires
        n <= labels.len(),
    ensures
        r@ == join_with(labels@.take(n as int).map_values(|v: Vec<char>| v@), sep@),
{
    let mut r: Vec<char> = Vec::new();
    let mut i: usize = 0;
    while i < n
        invariant
            n <= labels.len(),
            i <= n,
            r@ == join_with(labels@.take(i as int).map_values(|v: Vec<char>| v@), sep@),
        decreases n - i,
    {
        let ghost prev = labels@.take(i as int).map_values(|v: Vec<char>| v@);
        let ghost next = labels@.take(i + 1).map_values(|v: Vec<char>| v@);
        assert(next.drop_last() =~= prev);
        if i > 0 {
            append_chars(&mut r, sep);
        }
        append_chars(&mut r, &labels[i]);
        proof {
            if i == 0 {
                assert(r@ =~= next[0]);
            }
        }
        i = i + 1;
    }
    r
}

/// Summarises a list of actor names: each distinct name once, in ascending
/// order, repeated names with their count, joined as an English list.
pub fn summarize_actor_names(actor_names: &[String]) -> (r: Option<String>)
    ensures
        exists|keys: Seq<Seq<char>>| strictly_sorted(keys)
            && keys.to_set() == actor_names@.map_values(|s: String| s@).to_set()
            && ({
                let s = spec_summary(actor_names@.map_values(|s: String| s@), keys);
                &&& r is Some == s is Some
                &&& r matches Some(t) ==> t@ == s->0
            }),
{
    let ghost names = actor_names@.map_values(|s: String| s@);
    let mut counts: StrMap<usize> = StrMap::new();
    let mut i: usize = 0;
    while i < actor_names.len()
        invariant
            counts.wf(),
            i <= actor_names.len(),
            names == actor_names@.map_values(|s: String| s@),
            forall|k: Seq<char>| #[trigger] counts@.dom().contains(k) <==> names.take(i as int).contains(k),
            forall|k: Seq<char>| #[trigger] counts@.dom().contains(k) ==> counts@[k] as nat == occurrences(names.take(i as int), k),
            forall|k: Seq<char>| #[trigger] counts@.dom().contains(k) ==> counts@[k] <= i,
        decreases actor_names.len() - i,
    {
        let key = chars_of(actor_names[i].as_str());
        let c = match counts.get(&key) {
            Some(c) => *c,
            None => 0,
        };
        counts.insert(key, c + 1);
        proof {
            assert(names.take(i + 1) =~= names.take(i as int).push(names[i as int]));
            assert forall|k: Seq<char>| #[trigger] counts@.dom().contains(k) implies counts@[k] as nat == occurrences(names.take(i + 1), k) by {
                lemma_occurrences_push(names.take(i as int), names[i as int], k);
                lemma_occurrences_pos(names.take(i as int), k);
            }
            assert forall|k: Seq<char>| #[trigger] counts@.dom().contains(k) <==> names.take(i + 1).contains(k) by {
                lemma_occurrences_push(names.take(i as int), names[i as int], k);
                lemma_occurrences_pos(names.take(i as int), k);
                lemma_occurrences_pos(names.take(i + 1), k);
            }
        }
        i = i + 1;
    }
    assert(names.take(actor_names.len() as int) =~= names);
    let n = counts.len();
    proof { counts.lemma_contents(); }
    let ghost keys = counts.key_seq();
    let mut labels: Vec<Vec<char>> = Vec::new();
    let mut j: usize = 0;
    while j < n
        invariant
            counts.wf(),
            n == counts.key_seq().len(),
            keys == counts.key_seq(),
            j <= n,
            labels@.map_values(|v: Vec<char>| v@) == keys.take(j as int).map_values(|k: Seq<char>| name_label(k, occurrences(names, k))),
            forall|k: Seq<char>| #[trigger] counts@.dom().contains(k) ==> counts@[k] as nat == occurrences(names, k),
        decreases n - j,
    {
        proof { counts.lemma_contents(); }
        let name = counts.key_at(j);
        let count = *counts.value_at(j);
        assert(name@ == keys[j as int]);
        assert(counts@.dom().contains(keys[j as int]));
        assert(count as nat == occurrences(names, keys[j as int]));
        let mut label = name.clone();
        assert(label@ == name@);
        if count != 1 {
            append_chars(&mut label, &chars_of(" (x"));
            append_chars(&mut label, &u64_chars(count as u64));
            append_chars(&mut label, &chars_of(")"));
        }
        let ghost before = labels@;
        labels.push(label);
        proof {
            assert(label@ == name_label(keys[j as int], occurrences(names, keys[j as int])));
            crate::text::lemma_map_values_push(before, label, |v: Vec<char>| v@);
            crate::text::lemma_take_push(keys, j as int);
            crate::text::lemma_map_values_push(keys.take(j as int), keys[j as int], |k: Seq<char>| name_label(k, occurrences(names, k)));
            assert(labels@.map_values(|v: Vec<char>| v@) =~= keys.take(j + 1).map_values(|k: Seq<char>| name_label(k, occurrences(names, k))));
        }
        j = j + 1;
    }
    proof {
        counts.lemma_contents();
        assert(keys.take(n as int) =~= keys);
        assert forall|k: Seq<char>| keys.to_set().contains(k) <==> names.to_set().contains(k) by {
            if keys.to_set().contains(k) {
                let q = choose|q: int| 0 <= q < keys.len() && keys[q] == k;
                assert(counts@.dom().contains(keys[q]));
            }
            if names.to_set().contains(k) {
                assert(counts@.dom().contains(k));
            }
        }
        assert(keys.to_set() =~= names.to_set());
    }
    let ghost ls = keys.map_values(|k: Seq<char>| name_label(k, occurrences(names, k)));
    assert(labels@.map_values(|v: Vec<char>| v@) == ls);
    let r = if n == 0 {
        None
    } else if n == 1 {
        Some(string_from_chars(&labels[0]))
    } else if n == 2 {
        let mut t = labels[0].clone();
        append_chars(&mut t, &chars_of(" and "));
        append_chars(&mut t, &labels[1]);
        Some(string_from_chars(&t))
    } else {
        let mut t = join_chars(&labels, n - 1, &chars_of(", "));
        append_chars(&mut t, &chars_of(", and "));
        append_chars(&mut t, &labels[n - 1]);
        proof {
            assert(labels@.take(n - 1).map_values(|v: Vec<char>| v@) =~= ls.drop_last());
        }
        Some(string_from_chars(&t))
    };
    assert(strictly_sorted(keys));
    r
}

} // verus!
