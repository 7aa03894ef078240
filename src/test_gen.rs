use std::collections::HashMap;

use vstd::prelude::*;

use crate::access_path::{ordinal_of, root_of, PathArena, PathNode};
use crate::emit::{output_function_testcases, unit_text};
use crate::laws::{after_call, emitted, groups_ordered, lemma_added_ordered, AddTestCall};
use crate::names::{
    insert_index,
    lemma_insert_index_bound,
    lemma_insert_index_step,
    name_lt,
    sanitize_function_name,
    sanitized,
};
use crate::smt_solver::{value_text, SmtParam, SmtResult};
use crate::text::{decimal, push_decimal};

verus! {

broadcast use vstd::std_specs::hash::group_hash_axioms;

/// What the test generator knows of a model parameter once it is tied to an argument.
pub struct ResolvedParamModel {
    pub name: Seq<char>,
    pub rendered_type: Seq<char>,
    pub value_string: Seq<char>,
    /// The argument ordinal, when the parameter is that argument itself.
    pub param_ordinal: Option<usize>,
    /// The ordinal of the argument at the root of the parameter's path.
    pub related_to: usize,
}

/// A model parameter tied to the argument it constrains.
#[derive(Debug)]
pub struct ResolvedParam {
    pub name: String,
    pub rendered_type: String,
    pub value_string: String,
    pub param_ordinal: Option<usize>,
    pub related_to: usize,
}

impl View for ResolvedParam {
    type V = ResolvedParamModel;

    open spec fn view(&self) -> ResolvedParamModel {
        ResolvedParamModel {
            name: self.name@,
            rendered_type: self.rendered_type@,
            value_string: self.value_string@,
            param_ordinal: self.param_ordinal,
            related_to: self.related_to,
        }
    }
}

impl ResolvedParam {
    pub fn copy(&self) -> (r: Self)
        ensures
            r@ == self@,
    {
        ResolvedParam {
            name: self.name.clone(),
            rendered_type: self.rendered_type.clone(),
            value_string: self.value_string.clone(),
            param_ordinal: self.param_ordinal,
            related_to: self.related_to,
        }
    }
}

pub open spec fn param_models(s: Seq<ResolvedParam>) -> Seq<ResolvedParamModel> {
    s.map_values(|p: ResolvedParam| p@)
}

pub open spec fn param_names(s: Seq<ResolvedParamModel>) -> Seq<Seq<char>> {
    s.map_values(|p: ResolvedParamModel| p.name)
}

/// `entries` with `r` added in name order, unless an entry of that name is there
/// already: the first entry of a name is kept.
pub open spec fn insert_first(entries: Seq<ResolvedParamModel>, r: ResolvedParamModel) -> Seq<
    ResolvedParamModel,
> {
    let i = insert_index(param_names(entries), r.name) as int;
    if i < entries.len() && entries[i].name == r.name {
        entries
    } else {
        entries.insert(i, r)
    }
}

/// A function argument and the fields of it that model parameters constrain.
pub struct FuncArgModel {
    pub rendered_type: Seq<char>,
    pub name: Seq<char>,
    pub ordinal: usize,
    pub related_to: Seq<ResolvedParamModel>,
}

#[derive(Debug)]
pub struct FuncArg {
    pub rendered_type: String,
    pub name: String,
    pub ordinal: usize,
    pub related_to: Vec<ResolvedParam>,
}

impl View for FuncArg {
    type V = FuncArgModel;

    open spec fn view(&self) -> FuncArgModel {
        FuncArgModel {
            rendered_type: self.rendered_type@,
            name: self.name@,
            ordinal: self.ordinal,
            related_to: param_models(self.related_to@),
        }
    }
}

/// One satisfying assignment recorded for a function.
pub struct TestcaseModel<V> {
    pub abstract_val: V,
    pub param_list: Seq<ResolvedParamModel>,
}

#[derive(Debug)]
pub struct Testcase<V> {
    pub abstract_val: V,
    pub param_list: Vec<ResolvedParam>,
}

impl<V> View for Testcase<V> {
    type V = TestcaseModel<V>;

    open spec fn view(&self) -> TestcaseModel<V> {
        TestcaseModel { abstract_val: self.abstract_val, param_list: param_models(self.param_list@) }
    }
}

/// Everything recorded for one function.
pub struct FuncTestCaseInfoModel<V> {
    pub func_name: Seq<char>,
    pub param_map: Seq<ResolvedParamModel>,
    pub testcases: Seq<TestcaseModel<V>>,
    pub args: Seq<FuncArgModel>,
    pub func_name_raw: Seq<char>,
}

#[derive(Debug)]
pub struct FuncTestCaseInfo<V> {
    pub func_name: String,
    pub param_map: Vec<ResolvedParam>,
    pub testcases: Vec<Testcase<V>>,
    pub args: Vec<FuncArg>,
    pub func_name_raw: String,
}

impl<V> View for FuncTestCaseInfo<V> {
    type V = FuncTestCaseInfoModel<V>;

    open spec fn view(&self) -> FuncTestCaseInfoModel<V> {
        FuncTestCaseInfoModel {
            func_name: self.func_name@,
            param_map: param_models(self.param_map@),
            testcases: self.testcases@.map_values(|t: Testcase<V>| t@),
            args: self.args@.map_values(|a: FuncArg| a@),
            func_name_raw: self.func_name_raw@,
        }
    }
}

pub open spec fn group_names<V>(groups: Seq<FuncTestCaseInfoModel<V>>) -> Seq<Seq<char>> {
    groups.map_values(|g: FuncTestCaseInfoModel<V>| g.func_name)
}

/// Why a satisfying assignment could not be recorded.
#[derive(Clone, Copy, Debug, PartialEq, Eq, Structural)]
pub enum TestGenError {
    /// The number of rendered types differs from the number of model parameters.
    TypeCountMismatch,
    /// A model parameter has no access path.
    MissingPath,
    /// A model parameter's access path is not in the path arena.
    UnknownPath,
    /// A model parameter's access path is not rooted at a function argument.
    RootNotParameter,
    /// A model parameter's access path is rooted at an argument the function does not have.
    OrdinalOutOfRange,
}

/// What is wrong, if anything, with a model parameter of the given path, for a function
/// of `nargs` arguments.
pub open spec fn path_error(nodes: Seq<PathNode>, path: Option<usize>, nargs: nat) -> Option<
    TestGenError,
> {
    match path {
        None => Some(TestGenError::MissingPath),
        Some(p) => if p >= nodes.len() {
            Some(TestGenError::UnknownPath)
        } else {
            match ordinal_of(nodes[root_of(nodes, p as int)]) {
                None => Some(TestGenError::RootNotParameter),
                Some(o) => if 1 <= o <= nargs {
                    None
                } else {
                    Some(TestGenError::OrdinalOutOfRange)
                },
            }
        },
    }
}

/// The first error among the paths of a list of model parameters.
pub open spec fn first_path_error(nodes: Seq<PathNode>, paths: Seq<Option<usize>>, nargs: nat) -> Option<
    TestGenError,
>
    decreases paths.len(),
{
    if paths.len() == 0 {
        None
    } else if path_error(nodes, paths[0], nargs) is Some {
        path_error(nodes, paths[0], nargs)
    } else {
        first_path_error(nodes, paths.skip(1), nargs)
    }
}

/// The resolved form of a model parameter whose path has no error.
pub open spec fn resolved<P: SmtParam>(p: P, rendered_type: Seq<char>, nodes: Seq<PathNode>) -> ResolvedParamModel {
    let path = p.spec_path()->0 as int;
    ResolvedParamModel {
        name: p.spec_name(),
        rendered_type,
        value_string: value_text(p.spec_val()),
        param_ordinal: ordinal_of(nodes[path]),
        related_to: ordinal_of(nodes[root_of(nodes, path)])->0,
    }
}

pub open spec fn resolved_all<P: SmtParam>(ps: Seq<P>, rendered_types: Seq<String>, nodes: Seq<PathNode>) -> Seq<
    ResolvedParamModel,
> {
    Seq::new(ps.len(), |k: int| resolved(ps[k], rendered_types[k]@, nodes))
}

/// The display name of the argument at `ordinal`: its debug name, or `param_<ordinal>`.
pub open spec fn arg_name(debug_names: Map<usize, String>, ordinal: usize) -> Seq<char> {
    if debug_names.contains_key(ordinal) {
        debug_names[ordinal]@
    } else {
        seq!['p', 'a', 'r', 'a', 'm', '_'] + decimal(ordinal as nat)
    }
}

/// The arguments of a function seen for the first time.
pub open spec fn initial_args(arg_types: Seq<String>, debug_names: Map<usize, String>) -> Seq<
    FuncArgModel,
> {
    Seq::new(
        arg_types.len(),
        |i: int|
            FuncArgModel {
                rendered_type: arg_types[i]@,
                name: arg_name(debug_names, (i + 1) as usize),
                ordinal: (i + 1) as usize,
                related_to: Seq::empty(),
            },
    )
}

/// A group with one more resolved parameter recorded in its parameter map and, when
/// it is a field of its argument rather than the argument itself, in the argument's
/// fields.
pub open spec fn record_param<V>(g: FuncTestCaseInfoModel<V>, r: ResolvedParamModel) -> FuncTestCaseInfoModel<V> {
    let a = r.related_to - 1;
    FuncTestCaseInfoModel {
        param_map: insert_first(g.param_map, r),
        args: if r.param_ordinal is None {
            g.args.update(a, FuncArgModel { related_to: insert_first(g.args[a].related_to, r), ..g.args[a] })
        } else {
            g.args
        },
        ..g
    }
}

pub open spec fn record_params<V>(g: FuncTestCaseInfoModel<V>, rs: Seq<ResolvedParamModel>) -> FuncTestCaseInfoModel<V>
    decreases rs.len(),
{
    if rs.len() == 0 {
        g
    } else {
        record_param(record_params(g, rs.drop_last()), rs.last())
    }
}

/// A group after one satisfying assignment is recorded in it.
pub open spec fn record_testcase<V>(g: FuncTestCaseInfoModel<V>, val: V, rs: Seq<ResolvedParamModel>) -> FuncTestCaseInfoModel<V> {
    let h = record_params(g, rs);
    FuncTestCaseInfoModel {
        testcases: h.testcases.push(TestcaseModel { abstract_val: val, param_list: rs }),
        ..h
    }
}

pub open spec fn param_paths<P: SmtParam>(ps: Seq<P>) -> Seq<Option<usize>> {
    ps.map_values(|p: P| p.spec_path())
}

/// The index a function's group has, or would have, among the recorded groups.
pub open spec fn group_index<V>(groups: Seq<FuncTestCaseInfoModel<V>>, key: Seq<char>) -> int {
    insert_index(group_names(groups), key) as int
}

/// Whether a group for the function named `key` was recorded.
pub open spec fn has_group<V>(groups: Seq<FuncTestCaseInfoModel<V>>, key: Seq<char>) -> bool {
    let i = group_index(groups, key);
    i < groups.len() && groups[i].func_name == key
}

/// The number of arguments that a recorded assignment for `key` is checked against.
pub open spec fn arg_count<V>(groups: Seq<FuncTestCaseInfoModel<V>>, key: Seq<char>, arg_types: Seq<String>) -> nat {
    if has_group(groups, key) {
        groups[group_index(groups, key)].args.len()
    } else {
        arg_types.len()
    }
}

/// Why recording an assignment for `function_name` fails, if it does.
pub open spec fn add_error<V, P: SmtParam>(
    groups: Seq<FuncTestCaseInfoModel<V>>,
    function_name: Seq<char>,
    params: Seq<P>,
    param_types: Seq<String>,
    nodes: Seq<PathNode>,
    arg_types: Seq<String>,
) -> Option<TestGenError> {
    let key = sanitized(function_name);
    if param_types.len() != params.len() {
        Some(TestGenError::TypeCountMismatch)
    } else {
        first_path_error(nodes, param_paths(params), arg_count(groups, key, arg_types))
    }
}

/// The recorded groups after an assignment for `function_name` is recorded.
pub open spec fn added<V, P: SmtParam>(
    groups: Seq<FuncTestCaseInfoModel<V>>,
    function_name: Seq<char>,
    val: V,
    params: Seq<P>,
    param_types: Seq<String>,
    nodes: Seq<PathNode>,
    arg_types: Seq<String>,
    debug_names: Map<usize, String>,
) -> Seq<FuncTestCaseInfoModel<V>> {
    let key = sanitized(function_name);
    let i = group_index(groups, key);
    let g0 = if has_group(groups, key) {
        groups[i]
    } else {
        FuncTestCaseInfoModel {
            func_name: key,
            param_map: Seq::empty(),
            testcases: Seq::empty(),
            args: initial_args(arg_types, debug_names),
            func_name_raw: function_name,
        }
    };
    let g1 = record_testcase(g0, val, resolved_all(params, param_types, nodes));
    if has_group(groups, key) {
        groups.update(i, g1)
    } else {
        groups.insert(i, g1)
    }
}

/// The index of the first entry whose name equals or follows `name`, and whether it
/// equals it.
fn param_position(entries: &Vec<ResolvedParam>, name: &String) -> (r: (usize, bool))
    ensures
        r.0 == insert_index(param_names(param_models(entries@)), name@),
        r.1 == (r.0 < entries@.len() && entries@[r.0 as int].name@ == name@),
{
    let ghost names = param_names(param_models(entries@));
    assert(names.skip(0) =~= names);
    let mut i: usize = 0;
    while i < entries.len()
        invariant
            i <= entries@.len(),
            names == param_names(param_models(entries@)),
            insert_index(names, name@) == i + insert_index(names.skip(i as int), name@),
        decreases entries@.len() - i,
    {
        assert(names[i as int] == entries@[i as int].name@);
        let same = entries[i].name == *name;
        if same || name_lt(name.as_str(), entries[i].name.as_str()) {
            return (i, same);
        }
        proof {
            lemma_insert_index_step(names, name@, i as int);
        }
        i = i + 1;
    }
    assert(names.skip(i as int).len() == 0);
    (i, false)
}

/// Adds `r` to `entries` in name order, unless an entry of that name is there already.
fn insert_first_entry(entries: &mut Vec<ResolvedParam>, r: &ResolvedParam)
    ensures
        param_models(final(entries)@) == insert_first(param_models(old(entries)@), r@),
{
    let (i, found) = param_position(entries, &r.name);
    proof {
        lemma_insert_index_bound(param_names(param_models(old(entries)@)), r.name@);
    }
    if !found {
        entries.insert(i, r.copy());
        assert(param_models(entries@) =~= param_models(old(entries)@).insert(i as int, r@));
    }
}

/// The index of the first group whose name equals or follows `key`, and whether it
/// equals it.
fn group_position<V>(groups: &Vec<FuncTestCaseInfo<V>>, key: &String) -> (r: (usize, bool))
    ensures
        r.0 == group_index(groups@.map_values(|g: FuncTestCaseInfo<V>| g@), key@),
        r.1 == has_group(groups@.map_values(|g: FuncTestCaseInfo<V>| g@), key@),
{
    let ghost models = groups@.map_values(|g: FuncTestCaseInfo<V>| g@);
    let ghost names = group_names(models);
    assert(names.skip(0) =~= names);
    let mut i: usize = 0;
    while i < groups.len()
        invariant
            i <= groups@.len(),
            models == groups@.map_values(|g: FuncTestCaseInfo<V>| g@),
            names == group_names(models),
            insert_index(names, key@) == i + insert_index(names.skip(i as int), key@),
        decreases groups@.len() - i,
    {
        assert(names[i as int] == groups@[i as int].func_name@);
        let same = groups[i].func_name == *key;
        if same || name_lt(key.as_str(), groups[i].func_name.as_str()) {
            return (i, same);
        }
        proof {
            lemma_insert_index_step(names, key@, i as int);
        }
        i = i + 1;
    }
    assert(names.skip(i as int).len() == 0);
    (i, false)
}

/// The first error among the paths of `params`.
fn check_paths<P: SmtParam>(params: &Vec<P>, paths: &PathArena, nargs: usize) -> (r: Option<TestGenError>)
    requires
        paths.well_formed(),
    ensures
        r == first_path_error(paths@, param_paths(params@), nargs as nat),
        r is None ==> forall|k: int|
            0 <= k < params@.len() ==> path_error(paths@, #[trigger] params@[k].spec_path(), nargs as nat) is None,
{
    let ghost all = param_paths(params@);
    assert(all.skip(0) =~= all);
    let mut k: usize = 0;
    while k < params.len()
        invariant
            paths.well_formed(),
            k <= params@.len(),
            all == param_paths(params@),
            first_path_error(paths@, all, nargs as nat) == first_path_error(paths@, all.skip(k as int), nargs as nat),
            forall|j: int| 0 <= j < k ==> path_error(paths@, #[trigger] params@[j].spec_path(), nargs as nat) is None,
        decreases params@.len() - k,
    {
        let path = params[k].get_path();
        let ghost rest = all.skip(k as int);
        assert(rest[0] == path);
        let err = match path {
            None => Some(TestGenError::MissingPath),
            Some(p) => if p >= paths.len() {
                Some(TestGenError::UnknownPath)
            } else {
                let root = paths.find_root(p);
                match paths.get_ordinal(root) {
                    None => Some(TestGenError::RootNotParameter),
                    Some(o) => if 1 <= o && o <= nargs {
                        None
                    } else {
                        Some(TestGenError::OrdinalOutOfRange)
                    },
                }
            },
        };
        assert(err == path_error(paths@, path, nargs as nat));
        if err.is_some() {
            return err;
        }
        assert(rest.skip(1) =~= all.skip(k + 1));
        k = k + 1;
    }
    None
}

/// The resolved form of a model parameter whose path has no error.
fn resolve_param<P: SmtParam>(param: &P, rendered_type: &String, paths: &PathArena, nargs: usize) -> (r: ResolvedParam)
    requires
        paths.well_formed(),
        path_error(paths@, param.spec_path(), nargs as nat) is None,
    ensures
        r@ == resolved(*param, rendered_type@, paths@),
        1 <= r.related_to <= nargs,
{
    let path = match param.get_path() {
        Some(p) => p,
        None => 0,
    };
    let root = paths.find_root(path);
    let related_to = match paths.get_ordinal(root) {
        Some(o) => o,
        None => 1,
    };
    let val = param.get_val();
    ResolvedParam {
        name: param.get_name(),
        rendered_type: rendered_type.clone(),
        value_string: val.to_text(),
        param_ordinal: paths.get_ordinal(path),
        related_to,
    }
}

/// The display name of the argument at `ordinal`.
fn make_arg_name(debug_names: &HashMap<usize, String>, ordinal: usize) -> (r: String)
    ensures
        r@ == arg_name(debug_names@, ordinal),
{
    match debug_names.get(&ordinal) {
        Some(name) => name.clone(),
        None => {
            proof {
                reveal_strlit("param_");
            }
            let mut out = String::from_str("param_");
            push_decimal(&mut out, ordinal as u128);
            out
        },
    }
}

/// The arguments of a function seen for the first time.
fn make_initial_args(arg_types: &Vec<String>, debug_names: &HashMap<usize, String>) -> (r: Vec<FuncArg>)
    ensures
        r@.map_values(|a: FuncArg| a@) == initial_args(arg_types@, debug_names@),
{
    let mut args: Vec<FuncArg> = Vec::new();
    let mut i: usize = 0;
    while i < arg_types.len()
        invariant
            i <= arg_types@.len(),
            args@.map_values(|a: FuncArg| a@) == initial_args(arg_types@, debug_names@).take(i as int),
        decreases arg_types@.len() - i,
    {
        let ordinal = i + 1;
        let arg = FuncArg {
            rendered_type: arg_types[i].clone(),
            name: make_arg_name(debug_names, ordinal),
            ordinal,
            related_to: Vec::new(),
        };
        assert(param_models(arg.related_to@) =~= Seq::empty());
        assert(arg@ == initial_args(arg_types@, debug_names@)[i as int]);
        let ghost before = args@;
        let ghost arg_model = arg@;
        args.push(arg);
        assert(args@.map_values(|a: FuncArg| a@) =~= before.map_values(|a: FuncArg| a@).push(arg_model));
        assert(args@.map_values(|a: FuncArg| a@) =~= initial_args(arg_types@, debug_names@).take(i + 1));
        i = i + 1;
    }
    assert(initial_args(arg_types@, debug_names@).take(i as int) =~= initial_args(arg_types@, debug_names@));
    args
}

/// Records one resolved parameter in its argument's fields and in the group's
/// parameter map.
fn record_resolved<V>(g: &mut FuncTestCaseInfo<V>, r: &ResolvedParam)
    requires
        1 <= r.related_to <= old(g)@.args.len(),
    ensures
        final(g)@ == record_param(old(g)@, r@),
{
    if r.param_ordinal.is_none() {
        let a = r.related_to - 1;
        let mut arg = g.args.remove(a);
        insert_first_entry(&mut arg.related_to, r);
        g.args.insert(a, arg);
        assert(g.args@ == old(g).args@.update(a as int, arg));
    }
    insert_first_entry(&mut g.param_map, r);
    assert(g@.args =~= record_param(old(g)@, r@).args);
}

/// Generates tests from the satisfying assignments recorded for the functions of a
/// program.
pub struct TestGen<V> {
    test_output_dir: String,
    testcase_map: Vec<FuncTestCaseInfo<V>>,
}

impl<V> TestGen<V> {
    /// What is recorded, one group per function, in ascending order of sanitized name.
    pub closed spec fn groups(&self) -> Seq<FuncTestCaseInfoModel<V>> {
        self.testcase_map@.map_values(|g: FuncTestCaseInfo<V>| g@)
    }

    /// The directory the generated tests are written to.
    pub closed spec fn output_dir(&self) -> Seq<char> {
        self.test_output_dir@
    }

    pub fn new(test_output_file: String) -> (r: Self)
        ensures
            r.groups() == Seq::<FuncTestCaseInfoModel<V>>::empty(),
            groups_ordered(r.groups()),
            r.output_dir() == test_output_file@,
    {
        let r = TestGen { test_output_dir: test_output_file, testcase_map: Vec::new() };
        assert(r.groups() =~= Seq::<FuncTestCaseInfoModel<V>>::empty());
        assert(group_names(r.groups()) =~= Seq::<Seq<char>>::empty());
        r
    }

    /// The directory the generated tests are written to.
    pub fn test_output_dir(&self) -> (r: &String)
        ensures
            r@ == self.output_dir(),
    {
        &self.test_output_dir
    }

    /// Records one satisfying assignment for `function_name`: the model parameters with
    /// their rendered types, tied to the function's arguments through `paths`.
    ///
    /// The first time a function is seen its arguments are made from `arg_types` (one
    /// rendered type per argument) and `debug_names` (argument names by ordinal).
    pub fn add_test<P: SmtParam>(
        &mut self,
        function_name: &str,
        val: V,
        params: &Vec<P>,
        param_types: &Vec<String>,
        paths: &PathArena,
        arg_types: &Vec<String>,
        debug_names: &HashMap<usize, String>,
    ) -> (r: Result<(), TestGenError>)
        requires
            paths.well_formed(),
        ensures
            final(self).output_dir() == old(self).output_dir(),
            r is Ok <==> add_error(old(self).groups(), function_name@, params@, param_types@, paths@, arg_types@) is None,
            r matches Err(e) ==> Some(e) == add_error(old(self).groups(), function_name@, params@, param_types@, paths@, arg_types@)
                && final(self).groups() == old(self).groups(),
            r is Ok ==> final(self).groups() == added(
                old(self).groups(),
                function_name@,
                val,
                params@,
                param_types@,
                paths@,
                arg_types@,
                debug_names@,
            ),
            groups_ordered(old(self).groups()) ==> groups_ordered(final(self).groups()),
            final(self).groups() == after_call(
                old(self).groups(),
                paths@,
                (AddTestCall {
                    function_name: function_name@,
                    val,
                    params: params@,
                    param_types: param_types@,
                    arg_types: arg_types@,
                    debug_names: debug_names@,
                }),
            ),
    {
        let ghost groups0 = self.groups();
        let key = sanitize_function_name(function_name);
        let (gi, exists) = group_position(&self.testcase_map, &key);
        let nargs = if exists {
            self.testcase_map[gi].args.len()
        } else {
            arg_types.len()
        };
        if param_types.len() != params.len() {
            return Err(TestGenError::TypeCountMismatch);
        }
        match check_paths(params, paths, nargs) {
            Some(e) => {
                return Err(e);
            },
            None => {},
        }
        proof {
            lemma_insert_index_bound(group_names(groups0), key@);
        }
        let mut g = if exists {
            self.testcase_map.remove(gi)
        } else {
            let fresh = FuncTestCaseInfo {
                func_name: key,
                param_map: Vec::new(),
                testcases: Vec::new(),
                args: make_initial_args(arg_types, debug_names),
                func_name_raw: String::from_str(function_name),
            };
            assert(fresh@.param_map =~= Seq::empty());
            assert(fresh@.testcases =~= Seq::empty());
            fresh
        };
        let ghost g0 = g@;
        let ghost rs = resolved_all(params@, param_types@, paths@);
        let mut resolved_params: Vec<ResolvedParam> = Vec::new();
        let mut k: usize = 0;
        while k < params.len()
            invariant
                paths.well_formed(),
                k <= params@.len(),
                param_types@.len() == params@.len(),
                g@.args.len() == nargs,
                rs == resolved_all(params@, param_types@, paths@),
                forall|j: int|
                    0 <= j < params@.len() ==> path_error(paths@, #[trigger] params@[j].spec_path(), nargs as nat) is None,
                g@ == record_params(g0, rs.take(k as int)),
                param_models(resolved_params@) == rs.take(k as int),
            decreases params@.len() - k,
        {
            let r = resolve_param(&params[k], &param_types[k], paths, nargs);
            record_resolved(&mut g, &r);
            resolved_params.push(r);
            proof {
                assert(rs.take(k + 1).drop_last() =~= rs.take(k as int));
                assert(param_models(resolved_params@) =~= rs.take(k + 1));
            }
            k = k + 1;
        }
        assert(rs.take(k as int) =~= rs);
        g.testcases.push(Testcase { abstract_val: val, param_list: resolved_params });
        assert(g@.testcases =~= record_testcase(g0, val, rs).testcases);
        self.testcase_map.insert(gi, g);
        proof {
            if groups_ordered(groups0) {
                lemma_added_ordered(groups0, function_name@, val, params@, param_types@, paths@, arg_types@, debug_names@);
            }
            assert(self.groups() =~= added(groups0, function_name@, val, params@, param_types@, paths@, arg_types@, debug_names@));
        }
        Ok(())
    }

    /// Records an assignment only when the solve that produced it found the expression
    /// satisfiable: an unsatisfiable or undefined result records nothing.
    pub fn record_solution<P: SmtParam>(
        &mut self,
        result: SmtResult,
        function_name: &str,
        val: V,
        params: &Vec<P>,
        param_types: &Vec<String>,
        paths: &PathArena,
        arg_types: &Vec<String>,
        debug_names: &HashMap<usize, String>,
    ) -> (r: Result<bool, TestGenError>)
        requires
            paths.well_formed(),
        ensures
            final(self).output_dir() == old(self).output_dir(),
            result != SmtResult::Satisfiable ==> r == Ok::<bool, TestGenError>(false) && final(self).groups() == old(self).groups(),
            result == SmtResult::Satisfiable ==> match r {
                Ok(recorded) => recorded && add_error(old(self).groups(), function_name@, params@, param_types@, paths@, arg_types@) is None
                    && final(self).groups() == added(
                    old(self).groups(),
                    function_name@,
                    val,
                    params@,
                    param_types@,
                    paths@,
                    arg_types@,
                    debug_names@,
                ),
                Err(e) => Some(e) == add_error(old(self).groups(), function_name@, params@, param_types@, paths@, arg_types@)
                    && final(self).groups() == old(self).groups(),
            },
    {
        match result {
            SmtResult::Satisfiable => {
                match self.add_test(function_name, val, params, param_types, paths, arg_types, debug_names) {
                    Ok(()) => Ok(true),
                    Err(e) => Err(e),
                }
            },
            _ => Ok(false),
        }
    }

    /// The number of functions recorded.
    pub fn function_count(&self) -> (r: usize)
        ensures
            r == self.groups().len(),
    {
        self.testcase_map.len()
    }

    /// The generated test units, one per recorded function, in ascending order of the
    /// function's sanitized name.
    pub fn output_units(&self) -> (r: Vec<OutputUnit>)
        ensures
            r@.map_values(|u: OutputUnit| (u.file_name@, u.contents@)) == emitted(self.groups()),
            r@.len() == self.groups().len(),
            forall|i: int|
                0 <= i < r@.len() ==> (#[trigger] r@[i]).file_name@ == unit_file_name(self.groups()[i])
                    && r@[i].contents@ == unit_text(self.groups()[i]),
    {
        let mut units: Vec<OutputUnit> = Vec::new();
        let mut i: usize = 0;
        while i < self.testcase_map.len()
            invariant
                i <= self.testcase_map@.len(),
                units@.len() == i,
                forall|k: int|
                    0 <= k < i ==> (#[trigger] units@[k]).file_name@ == unit_file_name(self.groups()[k])
                        && units@[k].contents@ == unit_text(self.groups()[k]),
            decreases self.testcase_map@.len() - i,
        {
            let g = &self.testcase_map[i];
            let mut file_name = g.func_name.clone();
            file_name.append("_tests.rs");
            let contents = output_function_testcases(g);
            units.push(OutputUnit { file_name, contents });
            i = i + 1;
        }
        assert(units@.map_values(|u: OutputUnit| (u.file_name@, u.contents@)) =~= emitted(self.groups()));
        units
    }
}

/// The file name of a function's generated test unit.
pub open spec fn unit_file_name<V>(g: FuncTestCaseInfoModel<V>) -> Seq<char> {
    g.func_name + "_tests.rs"@
}

/// One generated test unit: the name of its file and its text.
#[derive(Debug)]
pub struct OutputUnit {
    pub file_name: String,
    pub contents: String,
}

} // verus!
