use vstd::prelude::*;

use crate::access_path::{acyclic, PathNode};
use crate::emit::unit_text;
use crate::names::{
    ascending,
    insert_index,
    lemma_insert_index_bound,
    lemma_ascending_skip,
    lemma_insert_index_of_present,
    lemma_lt_irreflexive,
    lemma_lt_transitive,
    seq_lt,
    lemma_insert_keeps_ascending,
    sanitized,
};
use crate::smt_solver::SmtParam;
use crate::test_gen::{
    TestGenError,
    add_error,
    added,
    arg_count,
    first_path_error,
    group_index,
    group_names,
    has_group,
    initial_args,
    insert_first,
    param_names,
    param_paths,
    path_error,
    record_param,
    record_params,
    record_testcase,
    resolved_all,
    unit_file_name,
    FuncTestCaseInfoModel,
    ResolvedParamModel,
};

verus! {

/// `insert_first` keeps a list of entries in strictly ascending name order.
pub proof fn lemma_insert_first_ascending(entries: Seq<ResolvedParamModel>, r: ResolvedParamModel)
    requires
        ascending(param_names(entries)),
    ensures
        ascending(param_names(insert_first(entries, r))),
{
    let names = param_names(entries);
    let i = insert_index(names, r.name) as int;
    lemma_insert_index_bound(names, r.name);
    if !(i < entries.len() && entries[i].name == r.name) {
        lemma_insert_keeps_ascending(names, r.name);
        assert(param_names(insert_first(entries, r)) =~= names.insert(i, r.name));
    }
}

/// A group whose parameter map and argument fields are each in strictly ascending name
/// order.
pub open spec fn group_ordered<V>(g: FuncTestCaseInfoModel<V>) -> bool {
    &&& ascending(param_names(g.param_map))
    &&& forall|a: int| 0 <= a < g.args.len() ==> ascending(param_names(#[trigger] g.args[a].related_to))
}

/// Recorded groups in strictly ascending order of sanitized function name, each ordered.
pub open spec fn groups_ordered<V>(groups: Seq<FuncTestCaseInfoModel<V>>) -> bool {
    &&& ascending(group_names(groups))
    &&& forall|i: int| 0 <= i < groups.len() ==> group_ordered(#[trigger] groups[i])
}

proof fn lemma_record_params_ordered<V>(g: FuncTestCaseInfoModel<V>, rs: Seq<ResolvedParamModel>)
    requires
        group_ordered(g),
        forall|k: int| 0 <= k < rs.len() ==> 1 <= (#[trigger] rs[k]).related_to <= g.args.len(),
    ensures
        group_ordered(record_params(g, rs)),
        record_params(g, rs).args.len() == g.args.len(),
        record_params(g, rs).func_name == g.func_name,
    decreases rs.len(),
{
    if rs.len() > 0 {
        lemma_record_params_ordered(g, rs.drop_last());
        let h = record_params(g, rs.drop_last());
        let r = rs.last();
        lemma_insert_first_ascending(h.param_map, r);
        let a = r.related_to - 1;
        lemma_insert_first_ascending(h.args[a].related_to, r);
        let h2 = record_param(h, r);
        assert forall|b: int| 0 <= b < h2.args.len() implies ascending(param_names(#[trigger] h2.args[b].related_to)) by {
            if b != a {
                assert(h2.args[b] == h.args[b]);
            }
        }
    }
}

/// Recording an assignment keeps the recorded groups in order.
pub proof fn lemma_added_ordered<V, P: SmtParam>(
    groups: Seq<FuncTestCaseInfoModel<V>>,
    function_name: Seq<char>,
    val: V,
    params: Seq<P>,
    param_types: Seq<String>,
    nodes: Seq<PathNode>,
    arg_types: Seq<String>,
    debug_names: Map<usize, String>,
)
    requires
        groups_ordered(groups),
        acyclic(nodes),
        add_error(groups, function_name, params, param_types, nodes, arg_types) is None,
    ensures
        groups_ordered(added(groups, function_name, val, params, param_types, nodes, arg_types, debug_names)),
{
    let key = sanitized(function_name);
    let i = group_index(groups, key);
    let names = group_names(groups);
    lemma_insert_index_bound(names, key);
    let exists = has_group(groups, key);
    let nargs = arg_count(groups, key, arg_types);
    let g0 = if exists {
        groups[i]
    } else {
        FuncTestCaseInfoModel {
            func_name: key,
            param_map: Seq::empty(),
            testcases: Seq::empty(),
            args: initial_args(arg_types, debug_names),
            func_name_raw: function_name,
        }
    };
    let rs = resolved_all(params, param_types, nodes);
    lemma_first_path_error_none(nodes, param_paths(params), nargs);
    assert forall|k: int| 0 <= k < rs.len() implies 1 <= (#[trigger] rs[k]).related_to <= g0.args.len() by {
        assert(param_paths(params)[k] == params[k].spec_path());
    }
    lemma_record_params_ordered(g0, rs);
    let g1 = record_testcase(g0, val, rs);
    let result = added(groups, function_name, val, params, param_types, nodes, arg_types, debug_names);
    if exists {
        assert(group_names(result) =~= names);
    } else {
        assert(result == groups.insert(i, g1));
        lemma_insert_keeps_ascending(names, key);
        assert(group_names(result) =~= names.insert(i, key));
    }
    assert(!exists ==> result == groups.insert(i, g1));
    assert(exists ==> result == groups.update(i, g1));
    assert forall|j: int| 0 <= j < result.len() implies group_ordered(#[trigger] result[j]) by {
        if j != i {
            if exists || j < i {
                assert(result[j] == groups[j]);
            } else {
                assert(groups.insert(i, g1)[j] == groups[j - 1]);
            }
        }
    }
}

proof fn lemma_first_path_error_none(nodes: Seq<PathNode>, paths: Seq<Option<usize>>, nargs: nat)
    requires
        first_path_error(nodes, paths, nargs) is None,
    ensures
        forall|k: int| 0 <= k < paths.len() ==> path_error(nodes, #[trigger] paths[k], nargs) is None,
    decreases paths.len(),
{
    if paths.len() > 0 {
        lemma_first_path_error_none(nodes, paths.skip(1), nargs);
        assert forall|k: int| 0 <= k < paths.len() implies path_error(nodes, #[trigger] paths[k], nargs) is None by {
            if k > 0 {
                assert(paths.skip(1)[k - 1] == paths[k]);
            }
        }
    }
}

/// The first entry of the given name, if any.
pub open spec fn field_named(entries: Seq<ResolvedParamModel>, n: Seq<char>) -> Option<ResolvedParamModel>
    decreases entries.len(),
{
    if entries.len() == 0 {
        None
    } else if entries[0].name == n {
        Some(entries[0])
    } else {
        field_named(entries.skip(1), n)
    }
}

proof fn lemma_field_named_index(entries: Seq<ResolvedParamModel>, n: Seq<char>) -> (p: int)
    requires
        field_named(entries, n) is Some,
    ensures
        0 <= p < entries.len(),
        entries[p].name == n,
    decreases entries.len(),
{
    if entries[0].name == n {
        0
    } else {
        let q = lemma_field_named_index(entries.skip(1), n);
        q + 1
    }
}

proof fn lemma_field_named_insert(entries: Seq<ResolvedParamModel>, i: int, r: ResolvedParamModel, n: Seq<char>)
    requires
        0 <= i <= entries.len(),
        r.name != n,
    ensures
        field_named(entries.insert(i, r), n) == field_named(entries, n),
    decreases entries.len(),
{
    let e2 = entries.insert(i, r);
    if i == 0 {
        assert(e2.skip(1) =~= entries);
    } else {
        assert(e2[0] == entries[0]);
        assert(e2.skip(1) =~= entries.skip(1).insert(i - 1, r));
        lemma_field_named_insert(entries.skip(1), i - 1, r, n);
    }
}

/// In entries kept in ascending name order, `insert_first` never changes the entry
/// found under a name that is already there.
pub proof fn lemma_insert_first_keeps_field(entries: Seq<ResolvedParamModel>, r: ResolvedParamModel, n: Seq<char>)
    requires
        ascending(param_names(entries)),
        field_named(entries, n) is Some,
    ensures
        field_named(insert_first(entries, r), n) == field_named(entries, n),
{
    let names = param_names(entries);
    let i = insert_index(names, r.name) as int;
    lemma_insert_index_bound(names, r.name);
    if !(i < entries.len() && entries[i].name == r.name) {
        if r.name == n {
            let p = lemma_field_named_index(entries, n);
            assert(names[p] == n);
            lemma_insert_index_of_present(names, p);
        } else {
            lemma_field_named_insert(entries, i, r, n);
        }
    }
}

proof fn lemma_record_params_keep_field<V>(g: FuncTestCaseInfoModel<V>, rs: Seq<ResolvedParamModel>, a: int, n: Seq<char>)
    requires
        group_ordered(g),
        forall|k: int| 0 <= k < rs.len() ==> 1 <= (#[trigger] rs[k]).related_to <= g.args.len(),
        0 <= a < g.args.len(),
        field_named(g.args[a].related_to, n) is Some,
    ensures
        field_named(record_params(g, rs).args[a].related_to, n) == field_named(g.args[a].related_to, n),
    decreases rs.len(),
{
    if rs.len() > 0 {
        lemma_record_params_keep_field(g, rs.drop_last(), a, n);
        lemma_record_params_ordered(g, rs.drop_last());
        let h = record_params(g, rs.drop_last());
        let r = rs.last();
        if r.param_ordinal is None && r.related_to - 1 == a {
            lemma_insert_first_keeps_field(h.args[a].related_to, r, n);
        }
    }
}

/// Once a field of an argument is recorded for a function, a later `add_test` for that
/// function, whatever model parameters it brings, leaves the entry recorded under that
/// field's name as it was: the first write wins.
pub proof fn lemma_add_test_keeps_first_field<V, P: SmtParam>(
    groups: Seq<FuncTestCaseInfoModel<V>>,
    function_name: Seq<char>,
    val: V,
    params: Seq<P>,
    param_types: Seq<String>,
    nodes: Seq<PathNode>,
    arg_types: Seq<String>,
    debug_names: Map<usize, String>,
    a: int,
    n: Seq<char>,
)
    requires
        groups_ordered(groups),
        add_error(groups, function_name, params, param_types, nodes, arg_types) is None,
        has_group(groups, sanitized(function_name)),
        0 <= a < groups[group_index(groups, sanitized(function_name))].args.len(),
        field_named(groups[group_index(groups, sanitized(function_name))].args[a].related_to, n) is Some,
    ensures
        ({
            let i = group_index(groups, sanitized(function_name));
            let after = added(groups, function_name, val, params, param_types, nodes, arg_types, debug_names);
            field_named(after[i].args[a].related_to, n) == field_named(groups[i].args[a].related_to, n)
        }),
{
    let key = sanitized(function_name);
    let i = group_index(groups, key);
    let g0 = groups[i];
    let rs = resolved_all(params, param_types, nodes);
    let nargs = arg_count(groups, key, arg_types);
    lemma_first_path_error_none(nodes, param_paths(params), nargs);
    assert forall|k: int| 0 <= k < rs.len() implies 1 <= (#[trigger] rs[k]).related_to <= g0.args.len() by {
        assert(param_paths(params)[k] == params[k].spec_path());
    }
    lemma_record_params_keep_field(g0, rs, a, n);
}

/// The first recorded group of the given sanitized name, if any.
pub open spec fn group_named<V>(groups: Seq<FuncTestCaseInfoModel<V>>, key: Seq<char>) -> Option<FuncTestCaseInfoModel<V>>
    decreases groups.len(),
{
    if groups.len() == 0 {
        None
    } else if groups[0].func_name == key {
        Some(groups[0])
    } else {
        group_named(groups.skip(1), key)
    }
}

proof fn lemma_group_named_index<V>(groups: Seq<FuncTestCaseInfoModel<V>>, key: Seq<char>) -> (p: int)
    requires
        group_named(groups, key) is Some,
    ensures
        0 <= p < groups.len(),
        groups[p].func_name == key,
        group_named(groups, key) == Some(groups[p]),
    decreases groups.len(),
{
    if groups[0].func_name == key {
        0
    } else {
        let q = lemma_group_named_index(groups.skip(1), key);
        q + 1
    }
}

proof fn lemma_group_names_skip<V>(groups: Seq<FuncTestCaseInfoModel<V>>)
    requires
        groups.len() > 0,
    ensures
        group_names(groups.skip(1)) == group_names(groups).skip(1),
{
    assert(group_names(groups.skip(1)) =~= group_names(groups).skip(1));
}

/// In ascending groups, every group is found under its own name.
proof fn lemma_group_named_at<V>(groups: Seq<FuncTestCaseInfoModel<V>>, p: int)
    requires
        ascending(group_names(groups)),
        0 <= p < groups.len(),
    ensures
        group_named(groups, groups[p].func_name) == Some(groups[p]),
    decreases groups.len(),
{
    if p > 0 {
        let names = group_names(groups);
        assert(seq_lt(names[0], names[p]));
        lemma_lt_irreflexive(names[p]);
        lemma_ascending_skip(names);
        lemma_group_names_skip(groups);
        lemma_group_named_at(groups.skip(1), p - 1);
    }
}

/// In ascending groups, no group after the first is found under the first one's name.
proof fn lemma_group_named_tail<V>(groups: Seq<FuncTestCaseInfoModel<V>>)
    requires
        ascending(group_names(groups)),
        groups.len() > 0,
    ensures
        group_named(groups.skip(1), groups[0].func_name) is None,
{
    let names = group_names(groups);
    lemma_ascending_skip(names);
    lemma_group_names_skip(groups);
    if group_named(groups.skip(1), groups[0].func_name) is Some {
        let p = lemma_group_named_index(groups.skip(1), groups[0].func_name);
        assert(group_names(groups.skip(1))[p] == groups[0].func_name);
        lemma_lt_irreflexive(names[0]);
    }
}

/// Two lists of groups, each in ascending name order, that find the same group under
/// every name are the same list.
proof fn lemma_groups_ext<V>(g1: Seq<FuncTestCaseInfoModel<V>>, g2: Seq<FuncTestCaseInfoModel<V>>)
    requires
        ascending(group_names(g1)),
        ascending(group_names(g2)),
        forall|k: Seq<char>| group_named(g1, k) == #[trigger] group_named(g2, k),
    ensures
        g1 == g2,
    decreases g1.len() + g2.len(),
{
    if g1.len() == 0 && g2.len() > 0 {
        lemma_group_named_at(g2, 0);
        assert(group_named(g1, g2[0].func_name) is None);
    } else if g2.len() == 0 && g1.len() > 0 {
        lemma_group_named_at(g1, 0);
        assert(group_named(g2, g1[0].func_name) is None);
    } else if g1.len() > 0 && g2.len() > 0 {
        let a = g1[0].func_name;
        let b = g2[0].func_name;
        lemma_group_named_at(g1, 0);
        lemma_group_named_at(g2, 0);
        assert(group_named(g2, a) == Some(g1[0]));
        if a != b {
            let p2 = lemma_group_named_index(g2, a);
            let p1 = lemma_group_named_index(g1, b);
            assert(group_names(g2)[p2] == a && group_names(g2)[0] == b);
            assert(group_names(g1)[p1] == b && group_names(g1)[0] == a);
            lemma_lt_transitive(a, b, a);
            lemma_lt_irreflexive(a);
        }
        assert(g1[0] == g2[0]);
        let t1 = g1.skip(1);
        let t2 = g2.skip(1);
        lemma_group_named_tail(g1);
        lemma_group_named_tail(g2);
        lemma_ascending_skip(group_names(g1));
        lemma_ascending_skip(group_names(g2));
        lemma_group_names_skip(g1);
        lemma_group_names_skip(g2);
        assert forall|k: Seq<char>| group_named(t1, k) == #[trigger] group_named(t2, k) by {
            if k != a {
                assert(group_named(g1, k) == group_named(t1, k));
                assert(group_named(g2, k) == group_named(t2, k));
            }
        }
        lemma_groups_ext(t1, t2);
        assert(g1 =~= seq![g1[0]] + t1);
        assert(g2 =~= seq![g2[0]] + t2);
    }
}

proof fn lemma_has_group_lookup<V>(groups: Seq<FuncTestCaseInfoModel<V>>, key: Seq<char>)
    requires
        ascending(group_names(groups)),
    ensures
        has_group(groups, key) <==> group_named(groups, key) is Some,
        has_group(groups, key) ==> group_named(groups, key) == Some(groups[group_index(groups, key)]),
{
    let names = group_names(groups);
    lemma_insert_index_bound(names, key);
    let i = group_index(groups, key);
    if has_group(groups, key) {
        lemma_group_named_at(groups, i);
    } else if group_named(groups, key) is Some {
        let p = lemma_group_named_index(groups, key);
        assert(names[p] == key);
        lemma_insert_index_of_present(names, p);
    }
}

proof fn lemma_group_named_update<V>(groups: Seq<FuncTestCaseInfoModel<V>>, i: int, g: FuncTestCaseInfoModel<V>, key: Seq<char>)
    requires
        0 <= i < groups.len(),
        g.func_name == groups[i].func_name,
        key != g.func_name,
    ensures
        group_named(groups.update(i, g), key) == group_named(groups, key),
    decreases groups.len(),
{
    let u = groups.update(i, g);
    if i > 0 {
        assert(u.skip(1) =~= groups.skip(1).update(i - 1, g));
        lemma_group_named_update(groups.skip(1), i - 1, g, key);
    } else {
        assert(u.skip(1) =~= groups.skip(1));
    }
}

proof fn lemma_group_named_insert<V>(groups: Seq<FuncTestCaseInfoModel<V>>, i: int, g: FuncTestCaseInfoModel<V>, key: Seq<char>)
    requires
        0 <= i <= groups.len(),
        key != g.func_name,
    ensures
        group_named(groups.insert(i, g), key) == group_named(groups, key),
    decreases groups.len(),
{
    let u = groups.insert(i, g);
    if i > 0 {
        assert(u[0] == groups[0]);
        assert(u.skip(1) =~= groups.skip(1).insert(i - 1, g));
        lemma_group_named_insert(groups.skip(1), i - 1, g, key);
    } else {
        assert(u.skip(1) =~= groups);
    }
}

proof fn lemma_record_params_name<V>(g: FuncTestCaseInfoModel<V>, rs: Seq<ResolvedParamModel>)
    ensures
        record_params(g, rs).func_name == g.func_name,
    decreases rs.len(),
{
    if rs.len() > 0 {
        lemma_record_params_name(g, rs.drop_last());
    }
}

/// The group that a function is first recorded in.
pub open spec fn fresh_group<V>(function_name: Seq<char>, arg_types: Seq<String>, debug_names: Map<usize, String>) -> FuncTestCaseInfoModel<V> {
    FuncTestCaseInfoModel {
        func_name: sanitized(function_name),
        param_map: Seq::empty(),
        testcases: Seq::empty(),
        args: initial_args(arg_types, debug_names),
        func_name_raw: function_name,
    }
}

/// Why a call fails, given the group recorded for its function, if any.
pub open spec fn call_error<V, P: SmtParam>(found: Option<FuncTestCaseInfoModel<V>>, c: AddTestCall<V, P>, nodes: Seq<PathNode>) -> Option<TestGenError> {
    if c.param_types.len() != c.params.len() {
        Some(TestGenError::TypeCountMismatch)
    } else {
        first_path_error(
            nodes,
            param_paths(c.params),
            match found {
                Some(g) => g.args.len(),
                None => c.arg_types.len(),
            },
        )
    }
}

/// The group recorded for a call's function after the call, given the one before.
pub open spec fn next_group<V, P: SmtParam>(found: Option<FuncTestCaseInfoModel<V>>, c: AddTestCall<V, P>, nodes: Seq<PathNode>) -> Option<FuncTestCaseInfoModel<V>> {
    if call_error(found, c, nodes) is Some {
        found
    } else {
        Some(
            record_testcase(
                match found {
                    Some(g) => g,
                    None => fresh_group(c.function_name, c.arg_types, c.debug_names),
                },
                c.val,
                resolved_all(c.params, c.param_types, nodes),
            ),
        )
    }
}

proof fn lemma_after_call_ordered<V, P: SmtParam>(groups: Seq<FuncTestCaseInfoModel<V>>, nodes: Seq<PathNode>, c: AddTestCall<V, P>)
    requires
        groups_ordered(groups),
        acyclic(nodes),
    ensures
        groups_ordered(after_call(groups, nodes, c)),
{
    if add_error(groups, c.function_name, c.params, c.param_types, nodes, c.arg_types) is None {
        lemma_added_ordered(groups, c.function_name, c.val, c.params, c.param_types, nodes, c.arg_types, c.debug_names);
    }
}

/// A call of `add_test` changes only the group of its own function, and that one only
/// as a function of what was recorded for it before.
pub proof fn lemma_after_call_lookup<V, P: SmtParam>(
    groups: Seq<FuncTestCaseInfoModel<V>>,
    nodes: Seq<PathNode>,
    c: AddTestCall<V, P>,
    key: Seq<char>,
)
    requires
        groups_ordered(groups),
        acyclic(nodes),
    ensures
        key != sanitized(c.function_name) ==> group_named(after_call(groups, nodes, c), key) == group_named(groups, key),
        key == sanitized(c.function_name) ==> group_named(after_call(groups, nodes, c), key) == next_group(
            group_named(groups, key),
            c,
            nodes,
        ),
{
    let kc = sanitized(c.function_name);
    lemma_has_group_lookup(groups, kc);
    lemma_insert_index_bound(group_names(groups), kc);
    let found = group_named(groups, kc);
    assert(add_error(groups, c.function_name, c.params, c.param_types, nodes, c.arg_types) == call_error(found, c, nodes));
    if call_error(found, c, nodes) is None {
        lemma_after_call_ordered(groups, nodes, c);
        let after = after_call(groups, nodes, c);
        let i = group_index(groups, kc);
        let g0 = if has_group(groups, kc) { groups[i] } else { fresh_group(c.function_name, c.arg_types, c.debug_names) };
        let g1 = record_testcase(g0, c.val, resolved_all(c.params, c.param_types, nodes));
        lemma_record_params_name(g0, resolved_all(c.params, c.param_types, nodes));
        assert(g1.func_name == kc);
        if has_group(groups, kc) {
            assert(after == groups.update(i, g1));
            if key != kc {
                lemma_group_named_update(groups, i, g1, key);
            } else {
                lemma_group_named_at(after, i);
            }
        } else {
            assert(after == groups.insert(i, g1));
            if key != kc {
                lemma_group_named_insert(groups, i, g1, key);
            } else {
                lemma_group_named_at(after, i);
            }
        }
    }
}

/// Calls of `add_test` for two functions of different sanitized names may come in
/// either order: the recorded groups, and so everything emitted, come out the same.
pub proof fn lemma_calls_commute<V, P: SmtParam>(
    groups: Seq<FuncTestCaseInfoModel<V>>,
    nodes: Seq<PathNode>,
    c1: AddTestCall<V, P>,
    c2: AddTestCall<V, P>,
)
    requires
        groups_ordered(groups),
        acyclic(nodes),
        sanitized(c1.function_name) != sanitized(c2.function_name),
    ensures
        after_call(after_call(groups, nodes, c1), nodes, c2) == after_call(after_call(groups, nodes, c2), nodes, c1),
        emitted(after_call(after_call(groups, nodes, c1), nodes, c2)) == emitted(
            after_call(after_call(groups, nodes, c2), nodes, c1),
        ),
{
    let a1 = after_call(groups, nodes, c1);
    let a2 = after_call(groups, nodes, c2);
    lemma_after_call_ordered(groups, nodes, c1);
    lemma_after_call_ordered(groups, nodes, c2);
    lemma_after_call_ordered(a1, nodes, c2);
    lemma_after_call_ordered(a2, nodes, c1);
    let a12 = after_call(a1, nodes, c2);
    let a21 = after_call(a2, nodes, c1);
    assert forall|k: Seq<char>| group_named(a12, k) == #[trigger] group_named(a21, k) by {
        lemma_after_call_lookup(groups, nodes, c1, k);
        lemma_after_call_lookup(a1, nodes, c2, k);
        lemma_after_call_lookup(groups, nodes, c2, k);
        lemma_after_call_lookup(a2, nodes, c1, k);
    }
    lemma_groups_ext(a12, a21);
}

/// The inputs of one call of `add_test`, as its contract reads them.
pub struct AddTestCall<V, P> {
    pub function_name: Seq<char>,
    pub val: V,
    pub params: Seq<P>,
    pub param_types: Seq<String>,
    pub arg_types: Seq<String>,
    pub debug_names: Map<usize, String>,
}

/// The recorded groups after one call of `add_test`: unchanged when the call fails.
pub open spec fn after_call<V, P: SmtParam>(
    groups: Seq<FuncTestCaseInfoModel<V>>,
    nodes: Seq<PathNode>,
    c: AddTestCall<V, P>,
) -> Seq<FuncTestCaseInfoModel<V>> {
    if add_error(groups, c.function_name, c.params, c.param_types, nodes, c.arg_types) is None {
        added(groups, c.function_name, c.val, c.params, c.param_types, nodes, c.arg_types, c.debug_names)
    } else {
        groups
    }
}

/// The recorded groups after a sequence of calls of `add_test`.
pub open spec fn after_calls<V, P: SmtParam>(
    groups: Seq<FuncTestCaseInfoModel<V>>,
    nodes: Seq<PathNode>,
    calls: Seq<AddTestCall<V, P>>,
) -> Seq<FuncTestCaseInfoModel<V>>
    decreases calls.len(),
{
    if calls.len() == 0 {
        groups
    } else {
        after_call(after_calls(groups, nodes, calls.drop_last()), nodes, calls.last())
    }
}

/// What is emitted for the recorded groups: each unit's file name and text, in order.
pub open spec fn emitted<V>(groups: Seq<FuncTestCaseInfoModel<V>>) -> Seq<(Seq<char>, Seq<char>)> {
    Seq::new(groups.len(), |i: int| (unit_file_name(groups[i]), unit_text(groups[i])))
}

/// Any sequence of `add_test` calls keeps the recorded groups in order.
pub proof fn lemma_after_calls_ordered<V, P: SmtParam>(
    groups: Seq<FuncTestCaseInfoModel<V>>,
    nodes: Seq<PathNode>,
    calls: Seq<AddTestCall<V, P>>,
)
    requires
        groups_ordered(groups),
        acyclic(nodes),
    ensures
        groups_ordered(after_calls(groups, nodes, calls)),
    decreases calls.len(),
{
    if calls.len() > 0 {
        lemma_after_calls_ordered(groups, nodes, calls.drop_last());
        let g = after_calls(groups, nodes, calls.drop_last());
        let c = calls.last();
        if add_error(g, c.function_name, c.params, c.param_types, nodes, c.arg_types) is None {
            lemma_added_ordered(g, c.function_name, c.val, c.params, c.param_types, nodes, c.arg_types, c.debug_names);
        }
    }
}

/// Whatever sequence of `add_test` calls a fresh generator receives, what it emits has
/// one unit per function, in strictly ascending order of sanitized function name, and
/// each unit's argument fields in ascending order of field name.
pub proof fn lemma_emission_ordered<V, P: SmtParam>(nodes: Seq<PathNode>, calls: Seq<AddTestCall<V, P>>)
    requires
        acyclic(nodes),
    ensures
        groups_ordered(after_calls(Seq::<FuncTestCaseInfoModel<V>>::empty(), nodes, calls)),
        ascending(group_names(after_calls(Seq::<FuncTestCaseInfoModel<V>>::empty(), nodes, calls))),
{
    let empty = Seq::<FuncTestCaseInfoModel<V>>::empty();
    assert(group_names(empty) =~= Seq::<Seq<char>>::empty());
    lemma_after_calls_ordered(empty, nodes, calls);
}

} // verus!
