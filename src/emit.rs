use vstd::prelude::*;

use crate::test_gen::{FuncArg, FuncArgModel, FuncTestCaseInfo, FuncTestCaseInfoModel, ResolvedParam, ResolvedParamModel, Testcase, TestcaseModel, param_models};
use crate::text::{decimal, push_decimal};

verus! {

/// The pieces, one after the other.
pub open spec fn concat(pieces: Seq<Seq<char>>) -> Seq<char>
    decreases pieces.len(),
{
    if pieces.len() == 0 {
        Seq::empty()
    } else {
        concat(pieces.drop_last()) + pieces.last()
    }
}

/// The pieces, separated by `", "`.
pub open spec fn join(pieces: Seq<Seq<char>>) -> Seq<char>
    decreases pieces.len(),
{
    if pieces.len() == 0 {
        Seq::empty()
    } else if pieces.len() == 1 {
        pieces[0]
    } else {
        join(pieces.drop_last()) + ", "@ + pieces.last()
    }
}

proof fn lemma_concat_step(pieces: Seq<Seq<char>>, i: int)
    requires
        0 <= i < pieces.len(),
    ensures
        concat(pieces.take(i + 1)) == concat(pieces.take(i)) + pieces[i],
{
    assert(pieces.take(i + 1).drop_last() =~= pieces.take(i));
}

proof fn lemma_join_step(pieces: Seq<Seq<char>>, i: int)
    requires
        0 <= i < pieces.len(),
    ensures
        i == 0 ==> join(pieces.take(i + 1)) == pieces[i],
        i > 0 ==> join(pieces.take(i + 1)) == join(pieces.take(i)) + ", "@ + pieces[i],
{
    assert(pieces.take(i + 1).drop_last() =~= pieces.take(i));
}

pub open spec fn views(s: Seq<String>) -> Seq<Seq<char>> {
    s.map_values(|x: String| x@)
}

/// Joins the pieces with `", "`.
pub fn join_pieces(pieces: &Vec<String>) -> (r: String)
    ensures
        r@ == join(views(pieces@)),
{
    let ghost all = views(pieces@);
    let mut out = String::new();
    let mut i: usize = 0;
    while i < pieces.len()
        invariant
            i <= pieces@.len(),
            all == views(pieces@),
            out@ == join(all.take(i as int)),
        decreases pieces@.len() - i,
    {
        proof {
            lemma_join_step(all, i as int);
        }
        if i > 0 {
            out.append(", ");
        }
        out.append(pieces[i].as_str());
        i = i + 1;
    }
    assert(all.take(i as int) =~= all);
    out
}

/// The line that binds a parameter's value in a generated test.
pub open spec fn init_line(p: ResolvedParamModel) -> Seq<char> {
    "        let "@ + p.name + ": "@ + p.rendered_type + " = "@ + p.value_string + ";\n"@
}

pub open spec fn init_lines(ps: Seq<ResolvedParamModel>) -> Seq<char> {
    concat(Seq::new(ps.len(), |j: int| init_line(ps[j])))
}

/// The last parameter of a test case that is the argument at `ordinal` itself.
pub open spec fn direct_arg(ps: Seq<ResolvedParamModel>, ordinal: usize) -> Option<ResolvedParamModel>
    decreases ps.len(),
{
    if ps.len() == 0 {
        None
    } else if ps.last().param_ordinal == Some(ordinal) {
        Some(ps.last())
    } else {
        direct_arg(ps.drop_last(), ordinal)
    }
}

/// Whether a test case holds a parameter of the given name.
pub open spec fn has_named(ps: Seq<ResolvedParamModel>, name: Seq<char>) -> bool {
    exists|j: int| 0 <= j < ps.len() && (#[trigger] ps[j]).name == name
}

/// What a constructor stub is handed for one field: `Some(<name>)` when the test case
/// binds it, `None` otherwise.
pub open spec fn field_arg(field: ResolvedParamModel, ps: Seq<ResolvedParamModel>) -> Seq<char> {
    if has_named(ps, field.name) {
        "Some("@ + field.name + ")"@
    } else {
        "None"@
    }
}

pub open spec fn field_args(arg: FuncArgModel, ps: Seq<ResolvedParamModel>) -> Seq<char> {
    join(Seq::new(arg.related_to.len(), |j: int| field_arg(arg.related_to[j], ps)))
}

/// The line of a generated test that builds an argument through its constructor stub.
pub open spec fn constructor_line(arg: FuncArgModel, ps: Seq<ResolvedParamModel>) -> Seq<char> {
    "        let "@ + arg.name + ": "@ + arg.rendered_type + " = construct_"@ + arg.name + "("@
        + field_args(arg, ps) + ");\n"@
}

/// Whether an argument of a test case is built through its constructor stub.
pub open spec fn uses_constructor(arg: FuncArgModel, ps: Seq<ResolvedParamModel>) -> bool {
    direct_arg(ps, arg.ordinal) is None && arg.related_to.len() > 0
}

pub open spec fn constructor_lines(args: Seq<FuncArgModel>, ps: Seq<ResolvedParamModel>) -> Seq<char> {
    concat(
        Seq::new(
            args.len(),
            |i: int|
                if uses_constructor(args[i], ps) {
                    constructor_line(args[i], ps)
                } else {
                    Seq::empty()
                },
        ),
    )
}

/// What a generated test passes for an argument: the value of the parameter that is
/// the argument itself, or else the argument's name.
pub open spec fn call_arg(arg: FuncArgModel, ps: Seq<ResolvedParamModel>) -> Seq<char> {
    match direct_arg(ps, arg.ordinal) {
        Some(p) => p.value_string,
        None => arg.name,
    }
}

pub open spec fn call_args(args: Seq<FuncArgModel>, ps: Seq<ResolvedParamModel>) -> Seq<char> {
    join(Seq::new(args.len(), |i: int| call_arg(args[i], ps)))
}

/// The generated test function for one recorded test case.
pub open spec fn testcase_text<V>(test_ind: nat, g: FuncTestCaseInfoModel<V>, tc: TestcaseModel<V>) -> Seq<char> {
    "    #[test]\n    fn test_"@ + decimal(test_ind) + "() {\n"@ + init_lines(tc.param_list) + "\n"@
        + constructor_lines(g.args, tc.param_list) + "\n        "@ + g.func_name_raw + "("@
        + call_args(g.args, tc.param_list) + ");\n    }\n\n"@
}

/// The parameter that a constructor stub takes for one field.
pub open spec fn stub_param(field: ResolvedParamModel) -> Seq<char> {
    field.name + ": Option<"@ + field.rendered_type + ">"@
}

/// The constructor stub of an argument, which the author of the tests completes.
pub open spec fn constructor_text(arg: FuncArgModel) -> Seq<char> {
    "    fn construct_"@ + arg.name + "("@ + join(Seq::new(arg.related_to.len(), |j: int| stub_param(arg.related_to[j])))
        + ") -> "@ + arg.rendered_type
        + "{\n        todo!(\"Make an instance of this struct using the given params.\")\n    }\n\n"@
}

pub open spec fn constructor_texts(args: Seq<FuncArgModel>) -> Seq<char> {
    concat(
        Seq::new(
            args.len(),
            |i: int|
                if args[i].related_to.len() > 0 {
                    constructor_text(args[i])
                } else {
                    Seq::empty()
                },
        ),
    )
}

pub open spec fn testcase_texts<V>(g: FuncTestCaseInfoModel<V>) -> Seq<char> {
    concat(Seq::new(g.testcases.len(), |i: int| testcase_text(i as nat, g, g.testcases[i])))
}

/// The generated test module of one function.
pub open spec fn unit_text<V>(g: FuncTestCaseInfoModel<V>) -> Seq<char> {
    "\n#[cfg(test)]\nmod "@ + g.func_name + "_tests {\n    use super::*;\n\n"@ + constructor_texts(g.args)
        + testcase_texts(g) + "}\n"@
}

/// Appends the binding line of each parameter.
fn push_init_lines(out: &mut String, ps: &Vec<ResolvedParam>)
    ensures
        final(out)@ == old(out)@ + init_lines(param_models(ps@)),
{
    let ghost models = param_models(ps@);
    let ghost lines = Seq::new(models.len(), |j: int| init_line(models[j]));
    let mut i: usize = 0;
    assert(lines.take(0) =~= Seq::<Seq<char>>::empty());
    assert(out@ =~= old(out)@ + concat(lines.take(0)));
    while i < ps.len()
        invariant
            i <= ps@.len(),
            models == param_models(ps@),
            lines == Seq::new(models.len(), |j: int| init_line(models[j])),
            out@ == old(out)@ + concat(lines.take(i as int)),
        decreases ps@.len() - i,
    {
        let ghost before = out@;
        let p = &ps[i];
        out.append("        let ");
        out.append(p.name.as_str());
        out.append(": ");
        out.append(p.rendered_type.as_str());
        out.append(" = ");
        out.append(p.value_string.as_str());
        out.append(";\n");
        proof {
            lemma_concat_step(lines, i as int);
            assert(out@ =~= before + init_line(models[i as int]));
            assert(out@ =~= old(out)@ + concat(lines.take(i + 1)));
        }
        i = i + 1;
    }
    assert(lines.take(i as int) =~= lines);
}

/// The index of the last parameter that is the argument at `ordinal` itself.
fn direct_index(ps: &Vec<ResolvedParam>, ordinal: usize) -> (r: Option<usize>)
    ensures
        match r {
            Some(j) => j < ps@.len() && direct_arg(param_models(ps@), ordinal) == Some(ps@[j as int]@),
            None => direct_arg(param_models(ps@), ordinal) is None,
        },
{
    let ghost models = param_models(ps@);
    let mut j: usize = ps.len();
    assert(models.take(j as int) =~= models);
    while j > 0
        invariant
            j <= ps@.len(),
            models == param_models(ps@),
            direct_arg(models, ordinal) == direct_arg(models.take(j as int), ordinal),
        decreases j,
    {
        assert(models.take(j as int).drop_last() =~= models.take(j - 1));
        assert(models.take(j as int).last() == ps@[j - 1]@);
        if ps[j - 1].param_ordinal == Some(ordinal) {
            return Some(j - 1);
        }
        j = j - 1;
    }
    None
}

/// Whether a test case holds a parameter named `name`.
fn field_present(ps: &Vec<ResolvedParam>, name: &String) -> (r: bool)
    ensures
        r == has_named(param_models(ps@), name@),
{
    let ghost models = param_models(ps@);
    let mut j: usize = 0;
    while j < ps.len()
        invariant
            j <= ps@.len(),
            models == param_models(ps@),
            forall|k: int| 0 <= k < j ==> (#[trigger] models[k]).name != name@,
        decreases ps@.len() - j,
    {
        if ps[j].name == *name {
            assert(models[j as int].name == name@);
            return true;
        }
        j = j + 1;
    }
    false
}

/// The arguments a generated test hands to an argument's constructor stub.
fn field_args_text(arg: &FuncArg, ps: &Vec<ResolvedParam>) -> (r: String)
    ensures
        r@ == field_args(arg@, param_models(ps@)),
{
    let ghost fields = arg@.related_to;
    let ghost want = Seq::new(fields.len(), |j: int| field_arg(fields[j], param_models(ps@)));
    let mut pieces: Vec<String> = Vec::new();
    let mut j: usize = 0;
    while j < arg.related_to.len()
        invariant
            j <= arg.related_to@.len(),
            fields == arg@.related_to,
            want == Seq::new(fields.len(), |k: int| field_arg(fields[k], param_models(ps@))),
            views(pieces@) == want.take(j as int),
        decreases arg.related_to@.len() - j,
    {
        let field = &arg.related_to[j];
        let piece = if field_present(ps, &field.name) {
            let mut t = String::from_str("Some(");
            t.append(field.name.as_str());
            t.append(")");
            t
        } else {
            String::from_str("None")
        };
        assert(piece@ =~= want[j as int]);
        let ghost before = pieces@;
        pieces.push(piece);
        assert(views(pieces@) =~= views(before).push(want[j as int]));
        assert(want.take(j + 1) =~= want.take(j as int).push(want[j as int]));
        j = j + 1;
    }
    assert(want.take(j as int) =~= want);
    join_pieces(&pieces)
}

/// The generated test function for one recorded test case.
pub fn output_testcase<V>(test_ind: usize, g: &FuncTestCaseInfo<V>, tc: &Testcase<V>) -> (r: String)
    ensures
        r@ == testcase_text(test_ind as nat, g@, tc@),
{
    let ghost ps = tc@.param_list;
    let ghost args = g@.args;
    let ghost ctor_want = Seq::new(
        args.len(),
        |i: int|
            if uses_constructor(args[i], ps) {
                constructor_line(args[i], ps)
            } else {
                Seq::empty()
            },
    );
    let ghost call_want = Seq::new(args.len(), |i: int| call_arg(args[i], ps));
    let mut ctor_lines = String::new();
    let mut call_pieces: Vec<String> = Vec::new();
    let mut i: usize = 0;
    assert(ctor_want.take(0) =~= Seq::<Seq<char>>::empty());
    assert(call_want.take(0) =~= Seq::<Seq<char>>::empty());
    while i < g.args.len()
        invariant
            i <= g.args@.len(),
            ps == tc@.param_list,
            args == g@.args,
            ctor_want == Seq::new(
                args.len(),
                |k: int|
                    if uses_constructor(args[k], ps) {
                        constructor_line(args[k], ps)
                    } else {
                        Seq::empty()
                    },
            ),
            call_want == Seq::new(args.len(), |k: int| call_arg(args[k], ps)),
            ctor_lines@ == concat(ctor_want.take(i as int)),
            views(call_pieces@) == call_want.take(i as int),
        decreases g.args@.len() - i,
    {
        let arg = &g.args[i];
        assert(args[i as int] == arg@);
        let ghost before_lines = ctor_lines@;
        let ghost before_pieces = call_pieces@;
        let piece = match direct_index(&tc.param_list, arg.ordinal) {
            Some(j) => tc.param_list[j].value_string.clone(),
            None => {
                if arg.related_to.len() > 0 {
                    ctor_lines.append("        let ");
                    ctor_lines.append(arg.name.as_str());
                    ctor_lines.append(": ");
                    ctor_lines.append(arg.rendered_type.as_str());
                    ctor_lines.append(" = construct_");
                    ctor_lines.append(arg.name.as_str());
                    ctor_lines.append("(");
                    let fields = field_args_text(arg, &tc.param_list);
                    ctor_lines.append(fields.as_str());
                    ctor_lines.append(");\n");
                    assert(ctor_lines@ =~= before_lines + constructor_line(arg@, ps));
                }
                arg.name.clone()
            },
        };
        proof {
            lemma_concat_step(ctor_want, i as int);
        }
        assert(ctor_lines@ =~= before_lines + ctor_want[i as int]);
        assert(piece@ == call_want[i as int]);
        call_pieces.push(piece);
        assert(views(call_pieces@) =~= views(before_pieces).push(call_want[i as int]));
        assert(call_want.take(i + 1) =~= call_want.take(i as int).push(call_want[i as int]));
        i = i + 1;
    }
    assert(ctor_want.take(i as int) =~= ctor_want);
    assert(call_want.take(i as int) =~= call_want);
    let mut out = String::from_str("    #[test]\n    fn test_");
    push_decimal(&mut out, test_ind as u128);
    out.append("() {\n");
    push_init_lines(&mut out, &tc.param_list);
    out.append("\n");
    out.append(ctor_lines.as_str());
    out.append("\n        ");
    out.append(g.func_name_raw.as_str());
    out.append("(");
    let call = join_pieces(&call_pieces);
    out.append(call.as_str());
    out.append(");\n    }\n\n");
    assert(out@ =~= testcase_text(test_ind as nat, g@, tc@));
    out
}

/// The constructor stub of an argument.
pub fn make_constructor_function(arg: &FuncArg) -> (r: String)
    ensures
        r@ == constructor_text(arg@),
{
    let ghost fields = arg@.related_to;
    let ghost want = Seq::new(fields.len(), |j: int| stub_param(fields[j]));
    let mut pieces: Vec<String> = Vec::new();
    let mut j: usize = 0;
    while j < arg.related_to.len()
        invariant
            j <= arg.related_to@.len(),
            fields == arg@.related_to,
            want == Seq::new(fields.len(), |k: int| stub_param(fields[k])),
            views(pieces@) == want.take(j as int),
        decreases arg.related_to@.len() - j,
    {
        let field = &arg.related_to[j];
        let mut piece = field.name.clone();
        piece.append(": Option<");
        piece.append(field.rendered_type.as_str());
        piece.append(">");
        assert(piece@ =~= want[j as int]);
        let ghost before = pieces@;
        pieces.push(piece);
        assert(views(pieces@) =~= views(before).push(want[j as int]));
        assert(want.take(j + 1) =~= want.take(j as int).push(want[j as int]));
        j = j + 1;
    }
    assert(want.take(j as int) =~= want);
    let mut out = String::from_str("    fn construct_");
    out.append(arg.name.as_str());
    out.append("(");
    let params = join_pieces(&pieces);
    out.append(params.as_str());
    out.append(") -> ");
    out.append(arg.rendered_type.as_str());
    out.append("{\n        todo!(\"Make an instance of this struct using the given params.\")\n    }\n\n");
    assert(out@ =~= constructor_text(arg@));
    out
}

/// The generated test module of one function: a constructor stub for each argument
/// that is only constrained through its fields, then one test per recorded test case.
pub fn output_function_testcases<V>(g: &FuncTestCaseInfo<V>) -> (r: String)
    ensures
        r@ == unit_text(g@),
{
    let ghost args = g@.args;
    let ghost stubs = Seq::new(
        args.len(),
        |i: int|
            if args[i].related_to.len() > 0 {
                constructor_text(args[i])
            } else {
                Seq::empty()
            },
    );
    let ghost tests = Seq::new(g@.testcases.len(), |i: int| testcase_text(i as nat, g@, g@.testcases[i]));
    let mut out = String::from_str("\n#[cfg(test)]\nmod ");
    out.append(g.func_name.as_str());
    out.append("_tests {\n    use super::*;\n\n");
    let ghost head = out@;
    assert(stubs.take(0) =~= Seq::<Seq<char>>::empty());
    assert(out@ =~= head + concat(stubs.take(0)));
    let mut i: usize = 0;
    while i < g.args.len()
        invariant
            i <= g.args@.len(),
            args == g@.args,
            stubs == Seq::new(
                args.len(),
                |k: int|
                    if args[k].related_to.len() > 0 {
                        constructor_text(args[k])
                    } else {
                        Seq::empty()
                    },
            ),
            out@ == head + concat(stubs.take(i as int)),
        decreases g.args@.len() - i,
    {
        let ghost before = out@;
        assert(args[i as int] == g.args@[i as int]@);
        if g.args[i].related_to.len() > 0 {
            let stub = make_constructor_function(&g.args[i]);
            out.append(stub.as_str());
        }
        proof {
            lemma_concat_step(stubs, i as int);
            assert(out@ =~= before + stubs[i as int]);
            assert(out@ =~= head + concat(stubs.take(i + 1)));
        }
        i = i + 1;
    }
    assert(stubs.take(i as int) =~= stubs);
    let ghost mid = out@;
    assert(tests.take(0) =~= Seq::<Seq<char>>::empty());
    assert(out@ =~= mid + concat(tests.take(0)));
    let mut t: usize = 0;
    while t < g.testcases.len()
        invariant
            t <= g.testcases@.len(),
            tests == Seq::new(g@.testcases.len(), |k: int| testcase_text(k as nat, g@, g@.testcases[k])),
            out@ == mid + concat(tests.take(t as int)),
        decreases g.testcases@.len() - t,
    {
        let ghost before = out@;
        let text = output_testcase(t, g, &g.testcases[t]);
        out.append(text.as_str());
        proof {
            lemma_concat_step(tests, t as int);
            assert(out@ =~= before + tests[t as int]);
            assert(out@ =~= mid + concat(tests.take(t + 1)));
        }
        t = t + 1;
    }
    assert(tests.take(t as int) =~= tests);
    out.append("}\n");
    assert(out@ =~= unit_text(g@));
    out
}

} // verus!
