//! `ARG` scopes and the substitution of `${VAR}` and `$VAR`.
//!
//! The container and the bootable builder share these rules, so that a
//! reference means the same on both. A substituted value is what a directive
//! runs or stores; the image history keeps the text of the recipe.
use vstd::prelude::*;
use crate::ast::{Arg, Ast};
use crate::text::{chars_of, text_of};
use crate::text_map::{lemma_text_values_insert, text_values, TextMap};

verus! {

/// Can `c` start a variable name?
pub open spec fn is_name_start(c: char) -> bool {
    'A' <= c <= 'Z' || 'a' <= c <= 'z' || c == '_'
}

/// Can `c` stand in a variable name?
pub open spec fn is_name_char(c: char) -> bool {
    is_name_start(c) || '0' <= c <= '9'
}

/// How many characters at the start of `s` can stand in a variable name.
pub open spec fn name_run(s: Seq<char>) -> nat
    decreases s.len(),
{
    if s.len() > 0 && is_name_char(s[0]) {
        1 + name_run(s.skip(1))
    } else {
        0
    }
}

/// The length of the variable name that `s` starts with; zero where it starts
/// with none.
pub open spec fn name_len(s: Seq<char>) -> nat {
    if s.len() > 0 && is_name_start(s[0]) {
        name_run(s)
    } else {
        0
    }
}

/// A reference at the start of `s`, as the name and the length of the whole:
/// `${NAME}`, or `$NAME` with the longest name possible.
pub open spec fn reference_at(s: Seq<char>) -> Option<(Seq<char>, nat)> {
    if s.len() < 2 || s[0] != '$' {
        None
    } else if s[1] == '{' {
        let n = name_len(s.skip(2));
        if n > 0 && 2 + n < s.len() && s[2 + n as int] == '}' {
            Some((s.subrange(2, 2 + n as int), n + 3))
        } else {
            None
        }
    } else {
        let n = name_len(s.skip(1));
        if n > 0 {
            Some((s.subrange(1, 1 + n as int), n + 1))
        } else {
            None
        }
    }
}

/// `s` with every reference to a name of `scope` replaced by its value. What
/// names nothing in `scope` stays as it is.
pub open spec fn substitute(s: Seq<char>, scope: Map<Seq<char>, Seq<char>>) -> Seq<char>
    decreases s.len(),
{
    if s.len() == 0 {
        s
    } else {
        proof {
            lemma_reference_len(s);
        }
        match reference_at(s) {
            Some((name, n)) => if scope.dom().contains(name) {
                scope[name] + substitute(s.skip(n as int), scope)
            } else {
                seq![s[0]] + substitute(s.skip(1), scope)
            },
            None => seq![s[0]] + substitute(s.skip(1), scope),
        }
    }
}

/// The value that `arg` has: that of the command line, else its default, else
/// the one already in scope.
pub open spec fn arg_value(
    scope: Map<Seq<char>, Seq<char>>,
    arg: Arg,
    build_args: Map<Seq<char>, Seq<char>>,
) -> Option<Seq<char>> {
    if build_args.dom().contains(arg.name@) {
        Some(build_args[arg.name@])
    } else if arg.default is Some {
        Some(arg.default->0@)
    } else if scope.dom().contains(arg.name@) {
        Some(scope[arg.name@])
    } else {
        None
    }
}

/// The scope after `arg`: with its value, where it has one.
pub open spec fn scope_after(
    scope: Map<Seq<char>, Seq<char>>,
    arg: Arg,
    build_args: Map<Seq<char>, Seq<char>>,
) -> Map<Seq<char>, Seq<char>> {
    match arg_value(scope, arg, build_args) {
        Some(v) => scope.insert(arg.name@, v),
        None => scope,
    }
}

/// The scope after the `ARG`s one by one.
pub open spec fn scope_after_all(
    scope: Map<Seq<char>, Seq<char>>,
    args: Seq<Arg>,
    build_args: Map<Seq<char>, Seq<char>>,
) -> Map<Seq<char>, Seq<char>>
    decreases args.len(),
{
    if args.len() == 0 {
        scope
    } else {
        scope_after(scope_after_all(scope, args.drop_last(), build_args), args.last(), build_args)
    }
}

/// The build-global scope of a recipe: its `ARG`s before the first `FROM`.
pub open spec fn global_scope(
    ast: Ast,
    build_args: Map<Seq<char>, Seq<char>>,
) -> Map<Seq<char>, Seq<char>> {
    scope_after_all(Map::empty(), ast.global_args@, build_args)
}

proof fn lemma_name_run(s: Seq<char>)
    ensures
        name_run(s) <= s.len(),
        forall|i: int| 0 <= i < name_run(s) ==> is_name_char(#[trigger] s[i]),
    decreases s.len(),
{
    if s.len() > 0 && is_name_char(s[0]) {
        lemma_name_run(s.skip(1));
        assert forall|i: int| 0 <= i < name_run(s) implies is_name_char(#[trigger] s[i]) by {
            if i > 0 {
                assert(s[i] == s.skip(1)[i - 1]);
            }
        }
    }
}

/// A reference lies inside the text that it starts.
pub proof fn lemma_reference_len(s: Seq<char>)
    ensures
        match reference_at(s) {
            Some((name, n)) => 0 < n <= s.len(),
            None => true,
        },
{
    if s.len() >= 2 {
        lemma_name_run(s.skip(1));
        lemma_name_run(s.skip(2));
    }
}

/// A text without `$` is not changed by substitution.
pub proof fn lemma_substitute_plain(s: Seq<char>, scope: Map<Seq<char>, Seq<char>>)
    requires
        !s.contains('$'),
    ensures
        substitute(s, scope) == s,
    decreases s.len(),
{
    if s.len() > 0 {
        assert(s[0] != '$') by {
            assert(s.contains(s[0]));
        }
        assert(!s.skip(1).contains('$')) by {
            if s.skip(1).contains('$') {
                let i = s.skip(1).index_of('$');
                assert(s[i + 1] == '$');
            }
        }
        lemma_substitute_plain(s.skip(1), scope);
        assert(seq![s[0]] + s.skip(1) =~= s);
    }
}

/// With nothing in scope no text is changed by substitution.
pub proof fn lemma_substitute_unknown(s: Seq<char>)
    ensures
        substitute(s, Map::empty()) == s,
    decreases s.len(),
{
    if s.len() > 0 {
        lemma_substitute_unknown(s.skip(1));
        assert(seq![s[0]] + s.skip(1) =~= s);
    }
}

/// A reference to a name in scope is replaced by its value, whatever follows
/// the closing brace.
pub proof fn lemma_substitute_braced(
    name: Seq<char>,
    rest: Seq<char>,
    scope: Map<Seq<char>, Seq<char>>,
)
    requires
        name.len() > 0,
        is_name_start(name[0]),
        forall|i: int| 0 <= i < name.len() ==> is_name_char(#[trigger] name[i]),
    ensures
        scope.dom().contains(name) ==> substitute(seq!['$', '{'] + name + seq!['}'] + rest, scope)
            == scope[name] + substitute(rest, scope),
{
    let s = seq!['$', '{'] + name + seq!['}'] + rest;
    lemma_name_run_exact(s.skip(2), name.len() as int);
    assert(s.skip(2)[0] == name[0]);
    assert(s.subrange(2, 2 + name.len() as int) =~= name);
    assert(s.skip(name.len() as int + 3) =~= rest);
}

proof fn lemma_name_run_exact(s: Seq<char>, n: int)
    requires
        0 <= n < s.len(),
        forall|i: int| 0 <= i < n ==> is_name_char(#[trigger] s[i]),
        !is_name_char(s[n]),
    ensures
        name_run(s) == n,
    decreases n,
{
    if n > 0 {
        assert(is_name_char(s[0]));
        assert forall|i: int| 0 <= i < n - 1 implies is_name_char(#[trigger] s.skip(1)[i]) by {
            assert(s.skip(1)[i] == s[i + 1]);
        }
        lemma_name_run_exact(s.skip(1), n - 1);
    }
}

/// The length of the variable name that stands in `v` at `from`.
fn name_length(v: &Vec<char>, from: usize) -> (r: usize)
    requires
        from <= v@.len(),
    ensures
        r == name_len(v@.skip(from as int)),
        from + r <= v@.len(),
{
    proof {
        lemma_name_run(v@.skip(from as int));
    }
    if from == v.len() {
        return 0;
    }
    let first = v[from];
    if !(('A' <= first && first <= 'Z') || ('a' <= first && first <= 'z') || first == '_') {
        return 0;
    }
    let mut i: usize = from;
    while i < v.len()
        invariant_except_break
            from <= i <= v@.len(),
            name_run(v@.skip(from as int)) == (i - from) + name_run(v@.skip(i as int)),
        ensures
            from <= i <= v@.len(),
            name_run(v@.skip(from as int)) == i - from,
        decreases v.len() - i,
    {
        let c = v[i];
        assert(v@.skip(i as int)[0] == c);
        if !(('A' <= c && c <= 'Z') || ('a' <= c && c <= 'z') || c == '_' || ('0' <= c && c
            <= '9')) {
            break;
        }
        assert(v@.skip(i as int).skip(1) =~= v@.skip(i as int + 1));
        i += 1;
    }
    i - from
}

/// The name and the length of the reference that stands in `v` at `from`.
fn find_reference(v: &Vec<char>, from: usize) -> (r: Option<(String, usize)>)
    requires
        from < v@.len(),
    ensures
        match r {
            Some((name, n)) => reference_at(v@.skip(from as int)) == Some((name@, n as nat)) && 0 < n
                && from + n <= v@.len(),
            None => reference_at(v@.skip(from as int)) is None,
        },
{
    let ghost s = v@.skip(from as int);
    let len: usize = v.len();
    if len - from < 2 || v[from] != '$' {
        return None;
    }
    if v[from + 1] == '{' {
        let n = name_length(v, from + 2);
        assert(v@.skip(from as int + 2) =~= s.skip(2));
        if n > 0 && from + 2 + n < len && v[from + 2 + n] == '}' {
            assert(v@.subrange(from + 2, from + 2 + n) =~= s.subrange(2, 2 + n));
            Some((text_of(v, from + 2, from + 2 + n), n + 3))
        } else {
            None
        }
    } else {
        let n = name_length(v, from + 1);
        assert(v@.skip(from as int + 1) =~= s.skip(1));
        if n > 0 {
            assert(v@.subrange(from + 1, from + 1 + n) =~= s.subrange(1, 1 + n));
            Some((text_of(v, from + 1, from + 1 + n), n + 1))
        } else {
            None
        }
    }
}

/// Expands the references in `text` to names of `scope`.
pub fn subst_with(scope: &TextMap<String>, text: &str) -> (r: String)
    ensures
        r@ == substitute(text@, text_values(scope@)),
{
    let v = chars_of(text);
    let ghost values = text_values(scope@);
    let mut out = String::new();
    let mut i: usize = 0;
    assert(v@.skip(0) =~= text@);
    assert(out@ + substitute(v@.skip(0), values) =~= substitute(text@, values));
    while i < v.len()
        invariant
            i <= v@.len(),
            values == text_values(scope@),
            out@ + substitute(v@.skip(i as int), values) == substitute(text@, values),
        decreases v.len() - i,
    {
        let ghost s = v@.skip(i as int);
        let ghost before = out@;
        let found = find_reference(&v, i);
        let value = match &found {
            Some((name, _)) => scope.get(name.as_str()),
            None => None,
        };
        match (found, value) {
            (Some((_, n)), Some(value)) => {
                out.append(value.as_str());
                proof {
                    assert(s.skip(n as int) =~= v@.skip(i + n));
                    assert(before + (value@ + substitute(s.skip(n as int), values)) =~= out@
                        + substitute(v@.skip(i + n), values));
                }
                i += n;
            },
            _ => {
                out.push(v[i]);
                proof {
                    assert(s.skip(1) =~= v@.skip(i + 1));
                    assert(before + (seq![s[0]] + substitute(s.skip(1), values)) =~= out@
                        + substitute(v@.skip(i + 1), values));
                }
                i += 1;
            },
        }
    }
    assert(v@.skip(i as int) =~= Seq::empty());
    assert(out@ + Seq::<char>::empty() =~= out@);
    out
}

/// Applies one `ARG` to a scope.
pub fn apply_arg_to_scope(
    scope: &mut TextMap<String>,
    arg: &Arg,
    build_args: &TextMap<String>,
)
    ensures
        text_values(final(scope)@) == scope_after(
            text_values(old(scope)@),
            *arg,
            text_values(build_args@),
        ),
{
    broadcast use lemma_text_values_insert;

    let value: Option<String> = match build_args.get(arg.name.as_str()) {
        Some(v) => Some(v.clone()),
        None => match &arg.default {
            Some(d) => Some(d.clone()),
            None => match scope.get(arg.name.as_str()) {
                Some(v) => Some(v.clone()),
                None => None,
            },
        },
    };
    if let Some(v) = value {
        scope.insert(arg.name.clone(), v);
    }
}

/// Resolves the build-global scope of a recipe.
pub fn resolve_global_args(ast: &Ast, build_args: &TextMap<String>) -> (r: TextMap<String>)
    ensures
        text_values(r@) == global_scope(*ast, text_values(build_args@)),
{
    let mut scope: TextMap<String> = TextMap::new();
    let ghost args = ast.global_args@;
    assert(text_values(scope@) =~= Map::<Seq<char>, Seq<char>>::empty());
    assert(args.take(0) =~= Seq::<Arg>::empty());
    let mut i: usize = 0;
    while i < ast.global_args.len()
        invariant
            i <= ast.global_args@.len(),
            args == ast.global_args@,
            text_values(scope@) == scope_after_all(
                Map::empty(),
                args.take(i as int),
                text_values(build_args@),
            ),
        decreases ast.global_args.len() - i,
    {
        assert(args.take(i as int + 1).drop_last() =~= args.take(i as int));
        apply_arg_to_scope(&mut scope, &ast.global_args[i], build_args);
        i += 1;
    }
    assert(args.take(i as int) =~= args);
    scope
}

} // verus!
