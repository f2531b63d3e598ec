use std::hash::{DefaultHasher, Hash, Hasher};

use wgsl_imports::assemble::compile;
use wgsl_imports::mangle::{FileManglerHash, Mangler};
use wgsl_imports::resolve::{modules_well_formed, resolve_order, ImportError, Module, ModuleImport};
use wgsl_imports::rewrite::replace_imported_ident;
use wgsl_imports::syntax::{
    BinaryOperator, CaseSelector, CompoundStatement, ContinuingStatement, Expression, Function,
    FunctionCall, GlobalDeclaration, ImportDirective, ImportItem, Statement, Struct, StructMember,
    SwitchClause, TranslationUnit, TypeExpression,
};

fn hashed(resource: &str, item: &str) -> String {
    let mut hasher = DefaultHasher::new();
    resource.to_string().hash(&mut hasher);
    item.to_string().hash(&mut hasher);
    format!("{item}_{}", hasher.finish())
}

fn ident(name: &str) -> Expression {
    Expression::Type(TypeExpression { name: name.to_string() })
}

fn call(name: &str, arguments: Vec<Expression>) -> Expression {
    Expression::FunctionCall(FunctionCall { name: name.to_string(), arguments })
}

fn call_stat(name: &str) -> Statement {
    Statement::FunctionCall(FunctionCall { name: name.to_string(), arguments: vec![] })
}

fn block(statements: Vec<Statement>) -> CompoundStatement {
    CompoundStatement { statements }
}

fn func(name: &str, statements: Vec<Statement>) -> GlobalDeclaration {
    GlobalDeclaration::Function(Function {
        name: name.to_string(),
        parameters: vec![],
        return_type: None,
        body: block(statements),
    })
}

fn item(name: &str) -> ImportItem {
    ImportItem { name: name.to_string(), rename: None }
}

fn import_decl(path: &str, items: Vec<ImportItem>) -> GlobalDeclaration {
    GlobalDeclaration::Import(ImportDirective { path: path.to_string(), items })
}

fn module(resource: &str, decls: Vec<GlobalDeclaration>, imports: Vec<(&str, usize, Vec<ImportItem>)>) -> Module {
    Module {
        resource: resource.to_string(),
        source: TranslationUnit { global_declarations: decls },
        imports: imports
            .into_iter()
            .map(|(r, target, items)| ModuleImport { resource: r.to_string(), target, items })
            .collect(),
    }
}

fn names(unit: &TranslationUnit) -> Vec<String> {
    unit.global_declarations
        .iter()
        .filter_map(|d| match d {
            GlobalDeclaration::Function(f) => Some(f.name.clone()),
            GlobalDeclaration::Declaration(x) => Some(x.name.clone()),
            GlobalDeclaration::TypeAlias(x) => Some(x.name.clone()),
            GlobalDeclaration::Struct(x) => Some(x.name.clone()),
            _ => None,
        })
        .collect()
}

fn function_text(unit: &TranslationUnit, name: &str) -> String {
    for d in unit.global_declarations.iter() {
        if let GlobalDeclaration::Function(f) = d {
            if f.name == name {
                return format!("{f:?}");
            }
        }
    }
    panic!("no function {name}")
}

fn quoted(s: &str) -> String {
    format!("{s:?}")
}

/// Entry `main` (position 0) imports `foo` from `lib` (position 1) and calls
/// it from the statement built by `uses`.
fn program_using_foo(uses: Vec<Statement>) -> Vec<Module> {
    let entry = module(
        "main",
        vec![import_decl("lib", vec![item("foo")]), func("main", uses)],
        vec![("lib", 1, vec![item("foo")])],
    );
    let lib = module("lib", vec![func("foo", vec![])], vec![]);
    vec![entry, lib]
}

#[test]
fn concrete_scenario_single_import() {
    let ms = program_using_foo(vec![call_stat("foo")]);
    assert!(modules_well_formed(&ms));
    let unit = compile(ms, 0, &FileManglerHash).unwrap();
    let mangled = hashed("lib", "foo");
    assert_eq!(names(&unit), vec![mangled.clone(), "main".to_string()]);
    let body = function_text(&unit, "main");
    assert!(body.contains(&quoted(&mangled)));
    assert!(!body.contains(&quoted("foo")));
    assert_eq!(unit.global_declarations.len(), 2);
}

#[test]
fn output_has_no_import_directives() {
    let ms = program_using_foo(vec![call_stat("foo")]);
    let unit = compile(ms, 0, &FileManglerHash).unwrap();
    assert!(unit.global_declarations.iter().all(|d| !matches!(d, GlobalDeclaration::Import(_))));
}

#[test]
fn cycle_rejected() {
    let a = module(
        "a",
        vec![import_decl("b", vec![item("y")]), func("x", vec![call_stat("y")])],
        vec![("b", 1, vec![item("y")])],
    );
    let b = module(
        "b",
        vec![import_decl("a", vec![item("x")]), func("y", vec![call_stat("x")])],
        vec![("a", 0, vec![item("x")])],
    );
    match compile(vec![a, b], 0, &FileManglerHash) {
        Err(ImportError::CyclicImport(cycle)) => assert_eq!(cycle, vec!["a".to_string(), "b".to_string()]),
        other => panic!("expected a cycle, got {other:?}"),
    }
}

#[test]
fn self_import_is_a_cycle() {
    let a = module("a", vec![func("x", vec![])], vec![("a", 0, vec![item("x")])]);
    match compile(vec![a], 0, &FileManglerHash) {
        Err(ImportError::CyclicImport(cycle)) => assert_eq!(cycle, vec!["a".to_string()]),
        other => panic!("expected a cycle, got {other:?}"),
    }
}

#[test]
fn unresolved_symbol_rejected() {
    let a = module(
        "A",
        vec![import_decl("B", vec![item("bar")]), func("main", vec![call_stat("bar")])],
        vec![("B", 1, vec![item("bar")])],
    );
    let b = module("B", vec![func("foo", vec![])], vec![]);
    match compile(vec![a, b], 0, &FileManglerHash) {
        Err(ImportError::UnresolvedImport(name, from, to)) => {
            assert_eq!(name, "bar");
            assert_eq!(from, "A");
            assert_eq!(to, "B");
        },
        other => panic!("expected an unresolved import, got {other:?}"),
    }
}

#[test]
fn diamond_dependency_emitted_once() {
    let e = module(
        "e",
        vec![func("main", vec![call_stat("fa"), call_stat("fb")])],
        vec![("a", 1, vec![item("fa")]), ("b", 2, vec![item("fb")])],
    );
    let a = module("a", vec![func("fa", vec![call_stat("fd")])], vec![("d", 3, vec![item("fd")])]);
    let b = module("b", vec![func("fb", vec![call_stat("fd")])], vec![("d", 3, vec![item("fd")])]);
    let d = module("d", vec![func("fd", vec![])], vec![]);
    let ms = vec![e, a, b, d];
    assert_eq!(resolve_order(&ms, 0).unwrap(), vec![3, 1, 2, 0]);
    let unit = compile(ms, 0, &FileManglerHash).unwrap();
    let fd = hashed("d", "fd");
    assert_eq!(
        names(&unit),
        vec![fd.clone(), hashed("a", "fa"), hashed("b", "fb"), "main".to_string()]
    );
    assert_eq!(names(&unit).iter().filter(|n| **n == fd).count(), 1);
    assert!(function_text(&unit, &hashed("a", "fa")).contains(&quoted(&fd)));
    assert!(function_text(&unit, &hashed("b", "fb")).contains(&quoted(&fd)));
}

#[test]
fn identity_on_no_imports() {
    let decls = vec![func("f", vec![call_stat("g")]), func("g", vec![])];
    let expected = format!("{decls:?}");
    let ms = vec![module("only", decls, vec![])];
    let unit = compile(ms, 0, &FileManglerHash).unwrap();
    assert_eq!(format!("{:?}", unit.global_declarations), expected);
}

#[test]
fn rewrite_in_for_condition() {
    let cond = Expression::Binary(BinaryOperator::LessThan, Box::new(ident("i")), Box::new(call("foo", vec![])));
    let stat = Statement::For(None, Some(cond), None, block(vec![]));
    let unit = compile(program_using_foo(vec![stat]), 0, &FileManglerHash).unwrap();
    let body = function_text(&unit, "main");
    assert!(body.contains(&quoted(&hashed("lib", "foo"))));
    assert!(!body.contains(&quoted("foo")));
}

#[test]
fn rewrite_in_switch_case_selector() {
    let clause = SwitchClause {
        case_selectors: vec![CaseSelector::Expression(call("foo", vec![])), CaseSelector::Default],
        body: block(vec![]),
    };
    let stat = Statement::Switch(ident("x"), vec![clause]);
    let unit = compile(program_using_foo(vec![stat]), 0, &FileManglerHash).unwrap();
    let body = function_text(&unit, "main");
    assert!(body.contains(&quoted(&hashed("lib", "foo"))));
    assert!(!body.contains(&quoted("foo")));
}

#[test]
fn rewrite_in_continuing_break_if() {
    let cont = ContinuingStatement { body: block(vec![]), break_if: Some(call("foo", vec![])) };
    let stat = Statement::Loop(block(vec![]), Some(cont));
    let unit = compile(program_using_foo(vec![stat]), 0, &FileManglerHash).unwrap();
    let body = function_text(&unit, "main");
    assert!(body.contains(&quoted(&hashed("lib", "foo"))));
    assert!(!body.contains(&quoted("foo")));
}

#[test]
fn rewrite_inside_binary_operand_and_arguments() {
    let e = Expression::Binary(
        BinaryOperator::Addition,
        Box::new(call("foo", vec![])),
        Box::new(call("max", vec![ident("foo"), Expression::Literal("1".to_string())])),
    );
    let stat = Statement::Return(Some(e));
    let unit = compile(program_using_foo(vec![stat]), 0, &FileManglerHash).unwrap();
    let body = function_text(&unit, "main");
    assert_eq!(body.matches(&quoted(&hashed("lib", "foo"))).count(), 2);
    assert!(body.contains(&quoted("max")));
    assert!(!body.contains(&quoted("foo")));
}

#[test]
fn rename_alias_is_rewritten() {
    let entry = module(
        "main",
        vec![func("main", vec![call_stat("bar")])],
        vec![("lib", 1, vec![ImportItem { name: "foo".to_string(), rename: Some("bar".to_string()) }])],
    );
    let lib = module("lib", vec![func("foo", vec![])], vec![]);
    let unit = compile(vec![entry, lib], 0, &FileManglerHash).unwrap();
    let body = function_text(&unit, "main");
    assert!(body.contains(&quoted(&hashed("lib", "foo"))));
    assert!(!body.contains(&quoted("bar")));
}

#[test]
fn declared_names_are_not_rewritten() {
    let mut unit = TranslationUnit { global_declarations: vec![func("foo", vec![call_stat("foo")])] };
    replace_imported_ident(&mut unit, &"foo".to_string(), &"bar".to_string());
    let text = function_text(&unit, "foo");
    assert!(text.contains(&quoted("bar")));
}

#[test]
fn mangle_is_deterministic() {
    let m = FileManglerHash;
    let r = "shaders/lib.wgsl".to_string();
    let i = "light".to_string();
    let first = m.mangle(&r, &i);
    assert_eq!(first, m.mangle(&r, &i));
    assert_eq!(first, hashed("shaders/lib.wgsl", "light"));
    assert!(first.starts_with("light_"));
    assert_ne!(first, m.mangle(&"other.wgsl".to_string(), &i));
}

#[test]
fn ill_formed_table_detected() {
    let a = module("a", vec![], vec![("b", 5, vec![item("x")])]);
    assert!(!modules_well_formed(&vec![a]));
    let a = module("a", vec![], vec![("b", 1, vec![item("x")])]);
    let c = module("c", vec![func("x", vec![])], vec![]);
    assert!(!modules_well_formed(&vec![a, c]));
}

#[test]
fn same_name_in_two_modules_stays_distinct() {
    let e = module(
        "e",
        vec![func("main", vec![call_stat("helper"), call_stat("other")])],
        vec![
            ("a", 1, vec![item("helper")]),
            ("b", 2, vec![ImportItem { name: "helper".to_string(), rename: Some("other".to_string()) }]),
        ],
    );
    let a = module("a", vec![func("helper", vec![])], vec![]);
    let b = module("b", vec![func("helper", vec![])], vec![]);
    let unit = compile(vec![e, a, b], 0, &FileManglerHash).unwrap();
    let ns = names(&unit);
    assert_eq!(ns.len(), 3);
    assert_ne!(ns[0], ns[1]);
    assert_eq!(ns, vec![hashed("a", "helper"), hashed("b", "helper"), "main".to_string()]);
    let body = function_text(&unit, "main");
    assert!(body.contains(&quoted(&hashed("a", "helper"))));
    assert!(body.contains(&quoted(&hashed("b", "helper"))));
}

#[test]
fn imported_struct_renamed_in_type_positions() {
    let entry = module(
        "main",
        vec![GlobalDeclaration::Struct(Struct {
            name: "Scene".to_string(),
            members: vec![StructMember { name: "light".to_string(), ty: TypeExpression { name: "Light".to_string() } }],
        })],
        vec![("lights", 1, vec![item("Light")])],
    );
    let lib = module(
        "lights",
        vec![GlobalDeclaration::Struct(Struct { name: "Light".to_string(), members: vec![] })],
        vec![],
    );
    let unit = compile(vec![entry, lib], 0, &FileManglerHash).unwrap();
    let text = format!("{:?}", unit.global_declarations);
    assert_eq!(names(&unit), vec![hashed("lights", "Light"), "Scene".to_string()]);
    assert!(!text.contains(&quoted("Light")));
}
