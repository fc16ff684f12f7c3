//! References to `ARG`s, and the scope they are looked up in.
use umf_builder::arg_subst::{apply_arg_to_scope, resolve_global_args, subst_with};
use umf_builder::ast::{Arg, Ast};
use umf_builder::text_map::TextMap;

fn arg(name: &str, default: Option<&str>) -> Arg {
    Arg { name: name.to_string(), default: default.map(str::to_string) }
}

fn map(pairs: &[(&str, &str)]) -> TextMap<String> {
    let mut m = TextMap::new();
    for (k, v) in pairs {
        m.insert(k.to_string(), v.to_string());
    }
    m
}

fn get<'a>(m: &'a TextMap<String>, key: &str) -> Option<&'a str> {
    m.get(key).map(String::as_str)
}

#[test]
fn default_seeds_scope() {
    let mut scope = map(&[]);
    apply_arg_to_scope(&mut scope, &arg("TAG", Some("3.21")), &map(&[]));
    assert_eq!(get(&scope, "TAG"), Some("3.21"));
}

#[test]
fn build_arg_overrides_default() {
    let mut scope = map(&[]);
    let build_args = map(&[("TAG", "edge")]);
    apply_arg_to_scope(&mut scope, &arg("TAG", Some("3.21")), &build_args);
    assert_eq!(get(&scope, "TAG"), Some("edge"));
}

#[test]
fn arg_without_default_or_override_stays_unset() {
    let mut scope = map(&[]);
    apply_arg_to_scope(&mut scope, &arg("TAG", None), &map(&[]));
    assert!(!scope.contains_key("TAG"), "scope: {scope:?}");
}

#[test]
fn redeclare_without_default_preserves_existing() {
    let mut scope = map(&[]);
    apply_arg_to_scope(&mut scope, &arg("X", Some("1")), &map(&[]));
    apply_arg_to_scope(&mut scope, &arg("X", None), &map(&[]));
    assert_eq!(get(&scope, "X"), Some("1"));
}

#[test]
fn build_arg_for_undeclared_default_still_wins_on_redeclare() {
    let mut scope = map(&[]);
    let build_args = map(&[("X", "fromcli")]);
    apply_arg_to_scope(&mut scope, &arg("X", None), &build_args);
    assert_eq!(get(&scope, "X"), Some("fromcli"));
}

#[test]
fn resolve_global_args_reads_pre_from_args() {
    let ast = Ast {
        global_args: vec![arg("A", Some("1")), arg("B", Some("2")), arg("C", None)],
        stages: Vec::new(),
    };
    let scope = resolve_global_args(&ast, &map(&[]));
    assert_eq!(get(&scope, "A"), Some("1"));
    assert_eq!(get(&scope, "B"), Some("2"));
    assert!(!scope.contains_key("C"), "scope: {scope:?}");
}

#[test]
fn subst_with_expands_known_and_keeps_unknown() {
    let scope = map(&[("TAG", "3.21")]);
    assert_eq!(subst_with(&scope, "alpine:${TAG}"), "alpine:3.21");
    assert_eq!(subst_with(&scope, "echo $HOME"), "echo $HOME");
    assert_eq!(subst_with(&scope, "${MISSING}"), "${MISSING}");
}

#[test]
fn both_forms_of_a_reference_are_replaced() {
    let scope = map(&[("A", "1"), ("AB", "2")]);
    assert_eq!(subst_with(&scope, "$A-$AB-${A}B-${AB}"), "1-2-1B-2");
    assert_eq!(subst_with(&scope, "$A.$A"), "1.1");
}

#[test]
fn what_is_no_reference_stays() {
    let scope = map(&[("A", "1")]);
    assert_eq!(subst_with(&scope, "no reference"), "no reference");
    assert_eq!(subst_with(&scope, "100$"), "100$");
    assert_eq!(subst_with(&scope, "$(date)"), "$(date)");
    assert_eq!(subst_with(&scope, "${A"), "${A");
    assert_eq!(subst_with(&scope, ""), "");
    assert_eq!(subst_with(&map(&[]), "${A}$A"), "${A}$A");
}

#[test]
fn a_value_is_not_looked_at_again() {
    let scope = map(&[("A", "$B"), ("B", "x")]);
    assert_eq!(subst_with(&scope, "$A"), "$B");
}

#[test]
fn a_later_global_sees_no_earlier_one_in_its_default() {
    let ast = Ast {
        global_args: vec![arg("A", Some("1")), arg("B", Some("${A}"))],
        stages: Vec::new(),
    };
    let scope = resolve_global_args(&ast, &map(&[("A", "2"), ("Z", "unused")]));
    assert_eq!(get(&scope, "A"), Some("2"));
    assert_eq!(get(&scope, "B"), Some("${A}"));
    assert!(!scope.contains_key("Z"));
}
