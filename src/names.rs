use vstd::prelude::*;

verus! {

/// Lexicographic order of character sequences, by code point.
pub open spec fn seq_lt(a: Seq<char>, b: Seq<char>) -> bool
    decreases a.len(),
{
    if a.len() == 0 {
        b.len() > 0
    } else if b.len() == 0 {
        false
    } else if a[0] != b[0] {
        (a[0] as u32) < (b[0] as u32)
    } else {
        seq_lt(a.skip(1), b.skip(1))
    }
}

/// Relies on `<str as PartialOrd>::lt`: strings are ordered lexicographically, which
/// orders them by code point.
#[verifier::external_body]
pub(crate) fn name_lt(a: &str, b: &str) -> (r: bool)
    ensures
        r == seq_lt(a@, b@),
{
    a < b
}

/// `s` with every match of `pat`, taken left to right without overlap, replaced by `rep`.
pub open spec fn replaced(s: Seq<char>, pat: Seq<char>, rep: Seq<char>) -> Seq<char>
    decreases s.len(),
{
    if pat.len() == 0 || s.len() < pat.len() {
        s
    } else if s.take(pat.len() as int) == pat {
        rep + replaced(s.skip(pat.len() as int), pat, rep)
    } else {
        seq![s[0]] + replaced(s.skip(1), pat, rep)
    }
}

/// Relies on `str::replace`: all matches of the pattern, found left to right without
/// overlap, are replaced.
#[verifier::external_body]
fn replace_all(s: &str, from: &str, to: &str) -> (r: String)
    requires
        from@.len() > 0,
    ensures
        r@ == replaced(s@, from@, to@),
{
    s.replace(from, to)
}

/// A function name made fit for an identifier: `.` and `::` become `_`.
pub open spec fn sanitized(name: Seq<char>) -> Seq<char> {
    replaced(replaced(name, seq!['.'], seq!['_']), seq![':', ':'], seq!['_'])
}

/// Makes a function name fit for use in an identifier.
pub fn sanitize_function_name(name: &str) -> (r: String)
    ensures
        r@ == sanitized(name@),
{
    proof {
        reveal_strlit(".");
        reveal_strlit("::");
        reveal_strlit("_");
        assert("."@ =~= seq!['.']);
        assert("::"@ =~= seq![':', ':']);
        assert("_"@ =~= seq!['_']);
    }
    let step = replace_all(name, ".", "_");
    replace_all(step.as_str(), "::", "_")
}

/// Where `key` goes in a list of names kept in ascending order: the index of the first
/// name that equals it or follows it.
pub open spec fn insert_index(names: Seq<Seq<char>>, key: Seq<char>) -> nat
    decreases names.len(),
{
    if names.len() == 0 {
        0
    } else if names[0] == key || seq_lt(key, names[0]) {
        0
    } else {
        1 + insert_index(names.skip(1), key)
    }
}

pub proof fn lemma_insert_index_bound(names: Seq<Seq<char>>, key: Seq<char>)
    ensures
        insert_index(names, key) <= names.len(),
    decreases names.len(),
{
    if names.len() > 0 {
        lemma_insert_index_bound(names.skip(1), key);
    }
}

pub proof fn lemma_insert_index_step(names: Seq<Seq<char>>, key: Seq<char>, i: int)
    requires
        0 <= i < names.len(),
        names[i] != key,
        !seq_lt(key, names[i]),
    ensures
        insert_index(names.skip(i), key) == 1 + insert_index(names.skip(i + 1), key),
{
    assert(names.skip(i).skip(1) =~= names.skip(i + 1));
}

pub proof fn lemma_lt_transitive(a: Seq<char>, b: Seq<char>, c: Seq<char>)
    requires
        seq_lt(a, b),
        seq_lt(b, c),
    ensures
        seq_lt(a, c),
    decreases a.len(),
{
    if a.len() > 0 && b.len() > 0 && c.len() > 0 && a[0] == b[0] && b[0] == c[0] {
        lemma_lt_transitive(a.skip(1), b.skip(1), c.skip(1));
    }
}

proof fn lemma_lt_total(a: Seq<char>, b: Seq<char>)
    requires
        a != b,
    ensures
        seq_lt(a, b) || seq_lt(b, a),
    decreases a.len(),
{
    if a.len() > 0 && b.len() > 0 {
        if a[0] == b[0] {
            if a.skip(1) == b.skip(1) {
                assert(a =~= seq![a[0]] + a.skip(1));
                assert(b =~= seq![b[0]] + b.skip(1));
            }
            lemma_lt_total(a.skip(1), b.skip(1));
        } else {
            vstd::utf8::char_u32_cast(a[0], a[0] as u32);
            vstd::utf8::char_u32_cast(b[0], b[0] as u32);
        }
    } else if a.len() == 0 && b.len() == 0 {
        assert(a =~= b);
    }
}

pub proof fn lemma_lt_irreflexive(a: Seq<char>)
    ensures
        !seq_lt(a, a),
    decreases a.len(),
{
    if a.len() > 0 {
        lemma_lt_irreflexive(a.skip(1));
    }
}

/// In ascending names, a name that is there is found at its own index.
pub proof fn lemma_insert_index_of_present(names: Seq<Seq<char>>, p: int)
    requires
        ascending(names),
        0 <= p < names.len(),
    ensures
        insert_index(names, names[p]) == p,
    decreases names.len(),
{
    let key = names[p];
    if p > 0 {
        lemma_lt_irreflexive(key);
        if seq_lt(key, names[0]) {
            lemma_lt_transitive(key, names[0], key);
        }
        let rest = names.skip(1);
        assert(rest[p - 1] == key);
        assert(ascending(rest)) by {
            assert forall|i: int, j: int| 0 <= i < j < rest.len() implies seq_lt(#[trigger] rest[i], #[trigger] rest[j]) by {
                assert(rest[i] == names[i + 1] && rest[j] == names[j + 1]);
            }
        }
        lemma_insert_index_of_present(rest, p - 1);
    }
}

/// Whether names are in strictly ascending order, so each occurs once.
pub open spec fn ascending(names: Seq<Seq<char>>) -> bool {
    forall|i: int, j: int| 0 <= i < j < names.len() ==> seq_lt(#[trigger] names[i], #[trigger] names[j])
}

proof fn lemma_insert_index_prefix(names: Seq<Seq<char>>, key: Seq<char>, j: int)
    requires
        0 <= j < insert_index(names, key),
    ensures
        names[j] != key,
        !seq_lt(key, names[j]),
    decreases names.len(),
{
    lemma_insert_index_bound(names, key);
    assert(names.len() > 0);
    assert(!(names[0] == key || seq_lt(key, names[0])));
    if j > 0 {
        lemma_insert_index_prefix(names.skip(1), key, j - 1);
        assert(names.skip(1)[j - 1] == names[j]);
    }
}

proof fn lemma_insert_index_stop(names: Seq<Seq<char>>, key: Seq<char>)
    requires
        insert_index(names, key) < names.len(),
    ensures
        names[insert_index(names, key) as int] == key || seq_lt(key, names[insert_index(names, key) as int]),
    decreases names.len(),
{
    if names.len() > 0 && !(names[0] == key || seq_lt(key, names[0])) {
        lemma_insert_index_stop(names.skip(1), key);
    }
}

/// Adding a name that is not there at its insertion index keeps names ascending.
pub proof fn lemma_insert_keeps_ascending(names: Seq<Seq<char>>, key: Seq<char>)
    requires
        ascending(names),
        !(insert_index(names, key) < names.len() && names[insert_index(names, key) as int] == key),
    ensures
        ascending(names.insert(insert_index(names, key) as int, key)),
{
    lemma_insert_index_bound(names, key);
    let i = insert_index(names, key) as int;
    let n2 = names.insert(i, key);
    assert forall|j: int| 0 <= j < i implies seq_lt(names[j], key) by {
        lemma_insert_index_prefix(names, key, j);
        lemma_lt_total(names[j], key);
    }
    if i < names.len() {
        lemma_insert_index_stop(names, key);
    }
    assert forall|j: int| i <= j < names.len() implies seq_lt(key, names[j]) by {
        if j > i {
            lemma_lt_transitive(key, names[i], names[j]);
        }
    }
    assert forall|x: int, y: int| 0 <= x < y < n2.len() implies seq_lt(#[trigger] n2[x], #[trigger] n2[y]) by {
        if y < i {
        } else if y == i {
        } else if x < i {
            lemma_lt_transitive(n2[x], key, n2[y]);
        } else if x == i {
        } else {
        }
    }
}

/// The names after the first of an ascending list are ascending too, and all follow it.
pub proof fn lemma_ascending_skip(names: Seq<Seq<char>>)
    requires
        ascending(names),
        names.len() > 0,
    ensures
        ascending(names.skip(1)),
        forall|j: int| 0 <= j < names.skip(1).len() ==> seq_lt(names[0], #[trigger] names.skip(1)[j]),
{
    let rest = names.skip(1);
    assert forall|i: int, j: int| 0 <= i < j < rest.len() implies seq_lt(#[trigger] rest[i], #[trigger] rest[j]) by {
        assert(rest[i] == names[i + 1] && rest[j] == names[j + 1]);
    }
    assert forall|j: int| 0 <= j < rest.len() implies seq_lt(names[0], #[trigger] rest[j]) by {
        assert(rest[j] == names[j + 1]);
    }
}

} // verus!
