//! What becomes of references to `ARG`s.
//!
//! A text is made of plain characters, of references `${NAME}` and `$NAME`, and
//! of dollar signs that refer to nothing. There is one law for each.
use vstd::prelude::*;
use crate::arg_subst::{
    is_name_char, is_name_start, lemma_substitute_plain, name_run, reference_at,
    resolve_global_args, scope_after, scope_after_all, subst_with, substitute,
};
use crate::ast::{Arg, Ast};
use crate::text_map::{text_values, TextMap};

verus! {

/// Is `c` an ASCII letter or an underscore?
pub open spec fn is_word_start(c: char) -> bool {
    ||| 'a' <= c <= 'z'
    ||| 'A' <= c <= 'Z'
    ||| c == '_'
}

/// Is `c` an ASCII letter, an ASCII digit or an underscore?
pub open spec fn is_word_char(c: char) -> bool {
    ||| 'a' <= c <= 'z'
    ||| 'A' <= c <= 'Z'
    ||| '0' <= c <= '9'
    ||| c == '_'
}

/// Is `name` made of ASCII letters, digits and underscores, with no digit first?
pub open spec fn is_variable(name: Seq<char>) -> bool {
    &&& name.len() > 0
    &&& is_word_start(name[0])
    &&& forall|i: int| 0 <= i < name.len() ==> is_word_char(#[trigger] name[i])
}

/// Letters and the underscore start a variable name, digits stand in it too, and
/// no other character does either.
pub proof fn lemma_name_characters(c: char)
    ensures
        is_name_start(c) == is_word_start(c),
        is_name_char(c) == is_word_char(c),
{
}

/// What precedes the first dollar sign is copied.
proof fn lemma_copied(p: Seq<char>, s: Seq<char>, scope: Map<Seq<char>, Seq<char>>)
    requires
        !p.contains('$'),
    ensures
        substitute(p + s, scope) == p + substitute(s, scope),
    decreases p.len(),
{
    if p.len() == 0 {
        assert(p + s =~= s);
        assert(p + substitute(s, scope) =~= substitute(s, scope));
    } else {
        let t = p + s;
        assert(p.contains(p[0]));
        assert(t[0] == p[0]);
        assert(!p.skip(1).contains('$')) by {
            if p.skip(1).contains('$') {
                let i = p.skip(1).index_of('$');
                assert(p[i + 1] == '$');
            }
        }
        assert(t.skip(1) =~= p.skip(1) + s);
        lemma_copied(p.skip(1), s, scope);
        assert(seq![p[0]] + (p.skip(1) + substitute(s, scope)) =~= p + substitute(s, scope));
    }
}

proof fn lemma_run(s: Seq<char>, n: int)
    requires
        0 <= n <= s.len(),
        forall|i: int| 0 <= i < n ==> is_word_char(#[trigger] s[i]),
        n < s.len() ==> !is_word_char(s[n]),
    ensures
        name_run(s) == n,
    decreases n,
{
    if n > 0 {
        assert(is_word_char(s[0]));
        assert forall|i: int| 0 <= i < n - 1 implies is_word_char(#[trigger] s.skip(1)[i]) by {
            assert(s.skip(1)[i] == s[i + 1]);
        }
        lemma_run(s.skip(1), n - 1);
    }
}

proof fn lemma_variable_plain(name: Seq<char>)
    requires
        is_variable(name),
    ensures
        !name.contains('$'),
        !name.contains('{'),
        !name.contains('}'),
{
    if name.contains('$') || name.contains('{') || name.contains('}') {
        let c = if name.contains('$') {
            '$'
        } else if name.contains('{') {
            '{'
        } else {
            '}'
        };
        let i = name.index_of(c);
        assert(is_word_char(name[i]));
    }
}

proof fn lemma_braced(name: Seq<char>, rest: Seq<char>)
    requires
        is_variable(name),
    ensures
        reference_at(seq!['$', '{'] + name + seq!['}'] + rest) == Some(
            (name, (name.len() + 3) as nat),
        ),
{
    let s = seq!['$', '{'] + name + seq!['}'] + rest;
    let n = name.len() as int;
    assert forall|i: int| 0 <= i < n implies is_word_char(#[trigger] s.skip(2)[i]) by {
        assert(s.skip(2)[i] == name[i]);
    }
    assert(s.skip(2)[n] == '}');
    lemma_run(s.skip(2), n);
    assert(s.skip(2)[0] == name[0]);
    assert(s.subrange(2, 2 + n) =~= name);
}

proof fn lemma_bare(name: Seq<char>, rest: Seq<char>)
    requires
        is_variable(name),
        rest.len() > 0 ==> !is_word_char(rest[0]),
    ensures
        reference_at(seq!['$'] + name + rest) == Some((name, (name.len() + 1) as nat)),
{
    let s = seq!['$'] + name + rest;
    let n = name.len() as int;
    assert forall|i: int| 0 <= i < n implies is_word_char(#[trigger] s.skip(1)[i]) by {
        assert(s.skip(1)[i] == name[i]);
    }
    if rest.len() > 0 {
        assert(s.skip(1)[n] == rest[0]);
    }
    lemma_run(s.skip(1), n);
    assert(s[1] == name[0]);
    assert(s.skip(1)[0] == name[0]);
    assert(s.subrange(1, 1 + n) =~= name);
}

/// A text without a dollar sign comes back as it is.
pub proof fn lemma_plain_text(scope: &TextMap<String>, text: &str, r: String)
    requires
        call_ensures(subst_with, (scope, text), r),
        !text@.contains('$'),
    ensures
        r@ == text@,
{
    lemma_substitute_plain(text@, text_values(scope@));
}

/// `${NAME}` becomes the value of the variable where it is in scope, and stays as
/// it is where it is not. What precedes it is copied, and what follows it is
/// treated as by itself.
pub proof fn lemma_braced_reference(
    scope: &TextMap<String>,
    text: &str,
    r: String,
    before: Seq<char>,
    name: Seq<char>,
    rest: &str,
    q: String,
)
    requires
        call_ensures(subst_with, (scope, text), r),
        call_ensures(subst_with, (scope, rest), q),
        !before.contains('$'),
        is_variable(name),
        text@ == before + seq!['$', '{'] + name + seq!['}'] + rest@,
    ensures
        scope@.dom().contains(name) ==> r@ == before + scope@[name]@ + q@,
        !scope@.dom().contains(name) ==> r@ == before + seq!['$', '{'] + name + seq!['}'] + q@,
{
    let values = text_values(scope@);
    let s = seq!['$', '{'] + name + seq!['}'] + rest@;
    assert(text@ =~= before + s);
    lemma_copied(before, s, values);
    lemma_braced(name, rest@);
    assert(s.skip(name.len() as int + 3) =~= rest@);
    if scope@.dom().contains(name) {
        assert(values.dom().contains(name));
        assert(r@ =~= before + scope@[name]@ + q@);
    } else {
        assert(!values.dom().contains(name));
        lemma_variable_plain(name);
        let p = seq!['{'] + name + seq!['}'];
        assert(!p.contains('$')) by {
            if p.contains('$') {
                let i = p.index_of('$');
                assert(p[i] == '$');
                assert(name.contains(name[i - 1]));
            }
        }
        assert(s.skip(1) =~= p + rest@);
        lemma_copied(p, rest@, values);
        assert(r@ =~= before + seq!['$', '{'] + name + seq!['}'] + q@);
    }
}

/// `$NAME`, with the longest name there is, becomes the value of the variable
/// where it is in scope, and stays as it is where it is not.
pub proof fn lemma_bare_reference(
    scope: &TextMap<String>,
    text: &str,
    r: String,
    before: Seq<char>,
    name: Seq<char>,
    rest: &str,
    q: String,
)
    requires
        call_ensures(subst_with, (scope, text), r),
        call_ensures(subst_with, (scope, rest), q),
        !before.contains('$'),
        is_variable(name),
        rest@.len() > 0 ==> !is_word_char(rest@[0]),
        text@ == before + seq!['$'] + name + rest@,
    ensures
        scope@.dom().contains(name) ==> r@ == before + scope@[name]@ + q@,
        !scope@.dom().contains(name) ==> r@ == before + seq!['$'] + name + q@,
{
    let values = text_values(scope@);
    let s = seq!['$'] + name + rest@;
    assert(text@ =~= before + s);
    lemma_copied(before, s, values);
    lemma_bare(name, rest@);
    assert(s.skip(name.len() as int + 1) =~= rest@);
    if scope@.dom().contains(name) {
        assert(values.dom().contains(name));
        assert(r@ =~= before + scope@[name]@ + q@);
    } else {
        assert(!values.dom().contains(name));
        lemma_variable_plain(name);
        assert(s.skip(1) =~= name + rest@);
        lemma_copied(name, rest@, values);
        assert(r@ =~= before + seq!['$'] + name + q@);
    }
}

/// A dollar sign before neither a name nor a brace stays as it is.
pub proof fn lemma_lone_dollar(
    scope: &TextMap<String>,
    text: &str,
    r: String,
    before: Seq<char>,
    rest: &str,
    q: String,
)
    requires
        call_ensures(subst_with, (scope, text), r),
        call_ensures(subst_with, (scope, rest), q),
        !before.contains('$'),
        rest@.len() > 0 ==> !is_word_start(rest@[0]) && rest@[0] != '{',
        text@ == before + seq!['$'] + rest@,
    ensures
        r@ == before + seq!['$'] + q@,
{
    let values = text_values(scope@);
    let s = seq!['$'] + rest@;
    assert(text@ =~= before + s);
    lemma_copied(before, s, values);
    assert(s.skip(1) =~= rest@);
    if rest@.len() > 0 {
        assert(s[1] == rest@[0]);
        assert(s.skip(1)[0] == rest@[0]);
    }
    assert(reference_at(s) is None);
    assert(r@ =~= before + seq!['$'] + q@);
}

/// A brace that no name and closing brace follow is no reference: it stays, with
/// the name, if there is one.
pub proof fn lemma_open_brace(
    scope: &TextMap<String>,
    text: &str,
    r: String,
    before: Seq<char>,
    name: Seq<char>,
    rest: &str,
    q: String,
)
    requires
        call_ensures(subst_with, (scope, text), r),
        call_ensures(subst_with, (scope, rest), q),
        !before.contains('$'),
        is_variable(name) && (rest@.len() > 0 ==> !is_word_char(rest@[0]) && rest@[0] != '}')
            || name.len() == 0 && (rest@.len() > 0 ==> !is_word_start(rest@[0])),
        text@ == before + seq!['$', '{'] + name + rest@,
    ensures
        r@ == before + seq!['$', '{'] + name + q@,
{
    let values = text_values(scope@);
    let s = seq!['$', '{'] + name + rest@;
    let n = name.len() as int;
    assert(text@ =~= before + s);
    lemma_copied(before, s, values);
    assert(s.skip(2) =~= name + rest@);
    if n > 0 {
        assert forall|i: int| 0 <= i < n implies is_word_char(#[trigger] s.skip(2)[i]) by {
            assert(s.skip(2)[i] == name[i]);
        }
        if rest@.len() > 0 {
            assert(s.skip(2)[n] == rest@[0]);
            assert(s[2 + n] == rest@[0]);
        }
        lemma_run(s.skip(2), n);
        lemma_variable_plain(name);
    } else if rest@.len() > 0 {
        assert(s.skip(2)[0] == rest@[0]);
    }
    assert(reference_at(s) is None);
    let p = seq!['{'] + name;
    assert(!p.contains('$')) by {
        if p.contains('$') {
            let i = p.index_of('$');
            assert(p[i] == '$');
            assert(name.contains(name[i - 1]));
        }
    }
    assert(s.skip(1) =~= p + rest@);
    lemma_copied(p, rest@, values);
    assert(r@ =~= before + seq!['$', '{'] + name + q@);
}

/// After an `ARG` the variable has the value from the command line, if there is
/// one, else the default, if there is one, else the value that it had. No other
/// variable changes.
pub proof fn lemma_arg(
    scope: Map<Seq<char>, Seq<char>>,
    arg: Arg,
    build_args: Map<Seq<char>, Seq<char>>,
    k: Seq<char>,
)
    ensures
        ({
            let after = scope_after(scope, arg, build_args);
            &&& k != arg.name@ ==> (after.dom().contains(k) <==> scope.dom().contains(k))
            &&& k != arg.name@ && scope.dom().contains(k) ==> after[k] == scope[k]
            &&& k == arg.name@ && build_args.dom().contains(k) ==> after.dom().contains(k)
                && after[k] == build_args[k]
            &&& k == arg.name@ && !build_args.dom().contains(k) && arg.default is Some
                ==> after.dom().contains(k) && after[k] == arg.default->0@
            &&& k == arg.name@ && !build_args.dom().contains(k) && arg.default is None ==> (
            after.dom().contains(k) <==> scope.dom().contains(k)) && (scope.dom().contains(k)
                ==> after[k] == scope[k])
        }),
{
}

proof fn lemma_undeclared(
    args: Seq<Arg>,
    build_args: Map<Seq<char>, Seq<char>>,
    k: Seq<char>,
)
    requires
        forall|i: int| 0 <= i < args.len() ==> (#[trigger] args[i]).name@ != k,
    ensures
        !scope_after_all(Map::empty(), args, build_args).dom().contains(k),
    decreases args.len(),
{
    if args.len() > 0 {
        let front = args.drop_last();
        assert forall|i: int| 0 <= i < front.len() implies (#[trigger] front[i]).name@ != k by {
            assert(front[i] == args[i]);
        }
        lemma_undeclared(front, build_args, k);
        assert(args[args.len() - 1].name@ != k);
    }
}

proof fn lemma_overridden(
    args: Seq<Arg>,
    build_args: Map<Seq<char>, Seq<char>>,
    i: int,
)
    requires
        0 <= i < args.len(),
        build_args.dom().contains(args[i].name@),
    ensures
        scope_after_all(Map::empty(), args, build_args).dom().contains(args[i].name@),
        scope_after_all(Map::empty(), args, build_args)[args[i].name@]
            == build_args[args[i].name@],
    decreases args.len(),
{
    if i < args.len() - 1 {
        assert(args.drop_last()[i] == args[i]);
        lemma_overridden(args.drop_last(), build_args, i);
    }
}

proof fn lemma_last_default(
    args: Seq<Arg>,
    build_args: Map<Seq<char>, Seq<char>>,
    i: int,
)
    requires
        0 <= i < args.len(),
        !build_args.dom().contains(args[i].name@),
        args[i].default is Some,
        forall|j: int|
            i < j < args.len() && (#[trigger] args[j]).name@ == args[i].name@
                ==> args[j].default is None,
    ensures
        scope_after_all(Map::empty(), args, build_args).dom().contains(args[i].name@),
        scope_after_all(Map::empty(), args, build_args)[args[i].name@] == args[i].default->0@,
    decreases args.len(),
{
    if i < args.len() - 1 {
        let front = args.drop_last();
        assert(front[i] == args[i]);
        assert forall|j: int|
            i < j < front.len() && (#[trigger] front[j]).name@ == front[i].name@ implies
                front[j].default is None by {
            assert(front[j] == args[j]);
        }
        lemma_last_default(front, build_args, i);
        assert(args[args.len() - 1].name@ == args[i].name@ ==> args.last().default is None);
    }
}

/// The build-global scope holds the declared `ARG`s alone. One that the command
/// line gives has that value; another has the last default that it is declared
/// with.
pub proof fn lemma_global_scope(
    ast: &Ast,
    build_args: &TextMap<String>,
    r: TextMap<String>,
    i: int,
    k: Seq<char>,
)
    requires
        call_ensures(resolve_global_args, (ast, build_args), r),
        0 <= i < ast.global_args@.len(),
    ensures
        (forall|j: int| 0 <= j < ast.global_args@.len() ==> (#[trigger] ast.global_args@[j]).name@ != k)
            ==> !r@.dom().contains(k),
        build_args@.dom().contains(ast.global_args@[i].name@) ==> r@.dom().contains(
            ast.global_args@[i].name@,
        ) && r@[ast.global_args@[i].name@]@ == build_args@[ast.global_args@[i].name@]@,
        !build_args@.dom().contains(ast.global_args@[i].name@) && ast.global_args@[i].default is Some
            && (forall|j: int|
            i < j < ast.global_args@.len() && (#[trigger] ast.global_args@[j]).name@
                == ast.global_args@[i].name@ ==> ast.global_args@[j].default is None)
            ==> r@.dom().contains(ast.global_args@[i].name@) && r@[ast.global_args@[i].name@]@
            == ast.global_args@[i].default->0@,
{
    let args = ast.global_args@;
    let given = text_values(build_args@);
    let all = text_values(r@);
    let name = args[i].name@;
    assert(forall|x: Seq<char>| all.dom().contains(x) == r@.dom().contains(x));
    if forall|j: int| 0 <= j < args.len() ==> (#[trigger] args[j]).name@ != k {
        lemma_undeclared(args, given, k);
        assert(!all.dom().contains(k));
    }
    if build_args@.dom().contains(name) {
        lemma_overridden(args, given, i);
        assert(all[name] == r@[name]@);
    } else if args[i].default is Some && (forall|j: int|
        i < j < args.len() && (#[trigger] args[j]).name@ == name ==> args[j].default is None) {
        lemma_last_default(args, given, i);
        assert(all[name] == r@[name]@);
    }
}

} // verus!
