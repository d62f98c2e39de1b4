use prql_compiler::ast::{Expr, Stmt, TransformKind};
use prql_compiler::error::ErrorKind;
use prql_compiler::ir::{ColumnExpr, Dialect, NodeKind, Query};
use prql_compiler::parser::parse;
use prql_compiler::reporting::{collect_frames, label_references};
use prql_compiler::scope::{split_var_name, Scope};
use prql_compiler::version::{check_query_version, COMPILER_MAJOR, COMPILER_MINOR, COMPILER_PATCH};
use prql_compiler::{load_std_lib, resolve};

fn parse_and_resolve(query: &str) -> Result<Query, prql_compiler::error::Error> {
    let (query, _) = resolve(parse(query)?, None)?;
    Ok(query)
}

fn requirement_display(q: &Query) -> String {
    semver::VersionReq::parse(q.def.version.as_ref().unwrap()).unwrap().to_string()
}

fn assert_single_star_from(q: &Query, table: &str) {
    assert!(q.tables.is_empty());
    assert_eq!(q.main_pipeline.len(), 1);
    let node = &q.main_pipeline[0];
    assert_eq!(node.kind, NodeKind::Transform(TransformKind::From));
    assert_eq!(node.table.as_deref(), Some(table));
    assert_eq!(node.frame.len(), 1);
    assert_eq!(node.frame[0].id, 0);
    assert!(node.frame[0].name.is_none());
    match &node.frame[0].expr {
        ColumnExpr::ExternRef { variable, table } => {
            assert_eq!(variable, "*");
            assert_eq!(*table, 0);
        }
        other => panic!("unexpected column expression {:?}", other),
    }
}

#[test]
fn test_header() {
    let q = parse_and_resolve(
        r###"
        prql dialect:mssql version:"0"

        from employees
        "###,
    )
    .unwrap();
    assert_eq!(requirement_display(&q), "^0");
    assert_eq!(q.def.dialect, Dialect::MsSql);
    assert_single_star_from(&q, "employees");

    let q = parse_and_resolve(
        r###"
        prql dialect:bigquery version:"0.2"

        from employees
        "###,
    )
    .unwrap();
    assert_eq!(requirement_display(&q), "^0.2");
    assert_eq!(q.def.dialect, Dialect::BigQuery);
    assert_single_star_from(&q, "employees");

    assert!(parse_and_resolve(
        r###"
        prql dialect:bigquery version:foo
        from employees
        "###,
    )
    .is_err());

    assert!(parse_and_resolve(
        r###"
        prql dialect:bigquery version:"25"
        from employees
        "###,
    )
    .is_err());

    assert!(parse_and_resolve(
        r###"
        prql dialect:yah version:foo
        from employees
        "###,
    )
    .is_err());
}

#[test]
fn check_valid_version() {
    let stmt = format!(
        r#"
        prql version:"{}"
        "#,
        COMPILER_MAJOR
    );
    assert!(parse(&stmt).is_ok());

    let stmt = format!(
        r#"
            prql version:"{}.{}"
            "#,
        COMPILER_MAJOR, COMPILER_MINOR
    );
    assert!(parse(&stmt).is_ok());

    let stmt = format!(
        r#"
            prql version:"{}.{}.{}"
            "#,
        COMPILER_MAJOR, COMPILER_MINOR, COMPILER_PATCH,
    );
    assert!(parse(&stmt).is_ok());
}

#[test]
fn check_invalid_version() {
    let stmt = format!("prql version:{}\n", COMPILER_MAJOR + 1);
    assert!(parse(&stmt).is_err());
}

#[test]
fn from_without_header_gives_single_star_column() {
    let q = parse_and_resolve("from employees").unwrap();
    assert!(q.def.version.is_none());
    assert_eq!(q.def.dialect, Dialect::Generic);
    assert_single_star_from(&q, "employees");
}

#[test]
fn own_versions_resolve_and_next_major_fails() {
    for v in [
        format!("{}", COMPILER_MAJOR),
        format!("{}.{}", COMPILER_MAJOR, COMPILER_MINOR),
        format!("{}.{}.{}", COMPILER_MAJOR, COMPILER_MINOR, COMPILER_PATCH),
    ] {
        let text = format!("prql version:\"{}\"\nfrom t\n", v);
        assert!(parse_and_resolve(&text).is_ok(), "{}", v);
    }
    let text = format!("prql version:\"{}\"\nfrom t\n", COMPILER_MAJOR + 1);
    let err = parse_and_resolve(&text).unwrap_err();
    assert_eq!(err.kind, ErrorKind::UnsupportedVersion);
}

#[test]
fn version_errors_are_distinct() {
    assert_eq!(
        parse_and_resolve("prql version:\"foo\"\nfrom t").unwrap_err().kind,
        ErrorKind::MalformedVersionString
    );
    assert_eq!(
        parse_and_resolve("prql version:\"25\"\nfrom t").unwrap_err().kind,
        ErrorKind::UnsupportedVersion
    );
    assert!(check_query_version("0.2", 0, 2, 11).is_ok());
    assert!(check_query_version("0.3", 0, 2, 11).is_err());
    assert_eq!(check_query_version("^x", 0, 2, 11).unwrap_err().kind, ErrorKind::MalformedVersionString);
}

#[test]
fn unknown_dialect_is_rejected() {
    let err = parse_and_resolve("prql dialect:yah\nfrom t").unwrap_err();
    assert_eq!(err.kind, ErrorKind::UnsupportedDialect);
}

#[test]
fn frames_follow_operators() {
    let q = parse_and_resolve(
        "from employees\nderive gross:salary\nfilter gross\nsort gross\ntake 10\nselect name gross",
    )
    .unwrap();
    let p = &q.main_pipeline;
    assert_eq!(p.len(), 6);
    // derive appends after the opaque column
    assert_eq!(p[1].frame.len(), 2);
    assert_eq!(p[1].frame[1].id, 1);
    assert_eq!(p[1].frame[1].name.as_deref(), Some("gross"));
    match &p[1].frame[1].expr {
        ColumnExpr::ExternRef { variable, table } => {
            assert_eq!(variable, "salary");
            assert_eq!(*table, 0);
        }
        other => panic!("unexpected {:?}", other),
    }
    // filter, sort and take leave the frame alone
    for i in 2..5 {
        assert_eq!(p[i].frame.len(), 2);
    }
    match &p[2].args[0] {
        ColumnExpr::Column(id) => assert_eq!(*id, 1),
        other => panic!("unexpected {:?}", other),
    }
    match &p[4].args[0] {
        ColumnExpr::Int(v) => assert_eq!(*v, 10),
        other => panic!("unexpected {:?}", other),
    }
    // select renumbers
    assert_eq!(p[5].frame.len(), 2);
    assert_eq!(p[5].frame[0].id, 0);
    assert_eq!(p[5].frame[1].id, 1);
    assert_eq!(p[5].frame[0].name.as_deref(), Some("name"));
    match &p[5].frame[1].expr {
        ColumnExpr::Column(id) => assert_eq!(*id, 1),
        other => panic!("unexpected {:?}", other),
    }
}

#[test]
fn join_adds_opaque_table_and_qualified_names_resolve() {
    let q = parse_and_resolve("from e\njoin d e.dept\nselect d.name").unwrap();
    let p = &q.main_pipeline;
    assert_eq!(p[1].frame.len(), 2);
    match &p[1].frame[1].expr {
        ColumnExpr::ExternRef { variable, table } => {
            assert_eq!(variable, "*");
            assert_eq!(*table, 1);
        }
        other => panic!("unexpected {:?}", other),
    }
    match &p[2].frame[0].expr {
        ColumnExpr::ExternRef { variable, table } => {
            assert_eq!(variable, "name");
            assert_eq!(*table, 1);
        }
        other => panic!("unexpected {:?}", other),
    }
}

#[test]
fn aggregate_and_group_keep_listed_columns() {
    let q = parse_and_resolve("from t\naggregate total:amount\n\nfrom u\ngroup k").unwrap();
    let p = &q.main_pipeline;
    assert_eq!(p[1].frame.len(), 1);
    assert_eq!(p[1].frame[0].name.as_deref(), Some("total"));
    assert_eq!(p[3].frame.len(), 1);
    assert_eq!(p[3].frame[0].name.as_deref(), Some("k"));
}

#[test]
fn definitions_are_stripped_and_kept_in_context() {
    let stmts = parse("let limit = 5\nfunc double x -> x\nfrom t\ndouble 3").unwrap();
    assert_eq!(stmts.len(), 3);
    let (q, ctx) = resolve(stmts, None).unwrap();
    assert_eq!(q.main_pipeline.len(), 2);
    let n = ctx.declarations.decls.len();
    assert_eq!(n, 11);
    match q.main_pipeline[1].kind {
        NodeKind::Call(id) => assert_eq!(id, 10),
        other => panic!("unexpected {:?}", other),
    }
}

#[test]
fn declaration_ids_in_query_exist_in_context() {
    let (q, ctx) = resolve(parse("let limit = 5\nfrom t\nfilter limit").unwrap(), None).unwrap();
    let n = ctx.declarations.decls.len();
    let mut seen = 0;
    for node in &q.main_pipeline {
        for a in &node.args {
            if let ColumnExpr::Decl(id) = a {
                assert!(*id < n);
                seen += 1;
            }
        }
    }
    assert_eq!(seen, 1);
}

#[test]
fn errors_have_their_kinds() {
    assert_eq!(parse_and_resolve("from t\nfoo x").unwrap_err().kind, ErrorKind::UndefinedName);
    assert_eq!(parse_and_resolve("func f a -> a\nfrom t\nf 1 2").unwrap_err().kind, ErrorKind::ArityMismatch);
    assert_eq!(parse_and_resolve("let v = 1\nfrom t\nv").unwrap_err().kind, ErrorKind::UnknownTransform);
    assert_eq!(parse_and_resolve("from t\ntake x").unwrap_err().kind, ErrorKind::TypeMismatch);
    assert_eq!(parse_and_resolve("from t\nfilter 1").unwrap_err().kind, ErrorKind::TypeMismatch);
    assert_eq!(parse_and_resolve("from t u").unwrap_err().kind, ErrorKind::ArityMismatch);
    assert_eq!(parse_and_resolve("select a").unwrap_err().kind, ErrorKind::UndefinedName);
    assert_eq!(parse_and_resolve("let x = nope").unwrap_err().kind, ErrorKind::UndefinedName);
    assert_eq!(parse("prql version:\"0").unwrap_err().kind, ErrorKind::Syntax);
}

#[test]
fn base_context_is_not_touched_by_later_queries() {
    let base = load_std_lib();
    let n0 = base.declarations.decls.len();
    assert_eq!(n0, 9);
    let first = parse("let secret = 1\nfrom t").unwrap();
    let (_, grown) = resolve(first, Some(load_std_lib())).unwrap();
    assert_eq!(grown.declarations.decls.len(), n0 + 1);
    // a second, independent compilation from a fresh base does not see `secret`
    let second = parse("from t\nfilter secret").unwrap();
    let (q, _) = resolve(second, Some(base)).unwrap();
    match &q.main_pipeline[1].args[0] {
        ColumnExpr::ExternRef { variable, .. } => assert_eq!(variable, "secret"),
        other => panic!("unexpected {:?}", other),
    }
    let third = load_std_lib();
    assert_eq!(third.declarations.decls.len(), n0);
}

#[test]
fn split_var_name_splits_at_first_dot() {
    let (t, c) = split_var_name("employees.salary");
    assert_eq!(t.as_deref(), Some("employees"));
    assert_eq!(c, "salary");
    let (t, c) = split_var_name("a.b.c");
    assert_eq!(t.as_deref(), Some("a"));
    assert_eq!(c, "b.c");
    let (t, c) = split_var_name("plain");
    assert!(t.is_none());
    assert_eq!(c, "plain");
}

#[test]
fn parser_reads_aliases_and_literals() {
    let stmts = parse("from t\nderive x:\"hi\" y:42").unwrap();
    match &stmts[0] {
        Stmt::Pipeline(steps) => {
            assert_eq!(steps.len(), 2);
            assert_eq!(steps[1].args.len(), 2);
            assert_eq!(steps[1].args[0].alias.as_deref(), Some("x"));
            match &steps[1].args[0].expr {
                Expr::Str(s) => assert_eq!(s, "hi"),
                other => panic!("unexpected {:?}", other),
            }
            match &steps[1].args[1].expr {
                Expr::Int(v) => assert_eq!(*v, 42),
                other => panic!("unexpected {:?}", other),
            }
        }
        other => panic!("unexpected {:?}", other),
    }
}

#[test]
fn reporting_projects_frames_and_labels() {
    let (q, ctx) = resolve(parse("let limit = 5\nfrom t\nfilter limit\nderive x:limit").unwrap(), None).unwrap();
    let frames = collect_frames(&q);
    assert_eq!(frames.len(), 3);
    for (i, (pos, f)) in frames.iter().enumerate() {
        assert_eq!(*pos, i);
        assert_eq!(f.len(), q.main_pipeline[i].frame.len());
    }
    assert_eq!(frames[2].1.len(), 2);
    let labels = label_references(&q);
    assert_eq!(labels.len(), 3);
    assert_eq!(labels[0], vec![None]);
    let limit_id = ctx.declarations.decls.len() - 1;
    assert_eq!(labels[1], vec![Some(limit_id), None]);
    assert_eq!(labels[2], vec![None, Some(limit_id)]);
}

#[test]
fn repeated_parameter_is_a_duplicate_declaration() {
    assert_eq!(
        parse_and_resolve("func f a a -> a\nfrom t").unwrap_err().kind,
        ErrorKind::DuplicateDeclaration
    );
}

#[test]
fn scope_shadows_and_restores() {
    let mut scope = Scope::new();
    let x = String::from("x");
    scope.bind(x.clone(), 1);
    assert_eq!(scope.resolve(&x), Some(1));
    scope.push();
    scope.bind(x.clone(), 2);
    assert_eq!(scope.resolve(&x), Some(2));
    scope.pop();
    assert_eq!(scope.resolve(&x), Some(1));
    assert_eq!(scope.resolve(&String::from("y")), None);
}

#[test]
fn header_fields_are_read_exactly() {
    let stmts = parse("prql version:\"0.2\" dialect:sqlite").unwrap();
    match &stmts[0] {
        Stmt::QueryDef { version, dialect } => {
            assert_eq!(version.as_deref(), Some("0.2"));
            assert_eq!(dialect.as_deref(), Some("sqlite"));
        }
        other => panic!("unexpected {:?}", other),
    }
    assert_eq!(parse("prql dialect:\"x\"").unwrap_err().kind, ErrorKind::Syntax);
    assert_eq!(parse("prql colour:red").unwrap_err().kind, ErrorKind::Syntax);
}

#[test]
fn defined_table_gives_known_columns() {
    let q = parse_and_resolve("table emp id salary\nfrom emp\nselect salary\n\nfrom emp\nfrom other").unwrap();
    let p = &q.main_pipeline;
    assert_eq!(p[0].frame.len(), 2);
    assert_eq!(p[0].frame[1].id, 1);
    assert_eq!(p[0].frame[1].name.as_deref(), Some("salary"));
    match &p[0].frame[1].expr {
        ColumnExpr::ExternRef { variable, table } => {
            assert_eq!(variable, "salary");
            assert_eq!(*table, 0);
        }
        other => panic!("unexpected {:?}", other),
    }
    match &p[1].frame[0].expr {
        ColumnExpr::Column(id) => assert_eq!(*id, 1),
        other => panic!("unexpected {:?}", other),
    }
    // the defined table is listed once; the external one is not listed
    assert_eq!(q.tables.len(), 1);
    assert_eq!(q.tables[0], 9);
    assert_eq!(p[3].frame.len(), 1);
    assert_eq!(
        parse_and_resolve("table t a a\nfrom t").unwrap_err().kind,
        ErrorKind::DuplicateDeclaration
    );
    assert_eq!(
        parse_and_resolve("table emp id\nfrom emp\nselect salary").unwrap_err().kind,
        ErrorKind::UndefinedName
    );
    let q = parse_and_resolve("table emp id salary\nfrom emp\nselect emp.salary").unwrap();
    match &q.main_pipeline[1].frame[0].expr {
        ColumnExpr::Column(id) => assert_eq!(*id, 1),
        other => panic!("unexpected {:?}", other),
    }
}

#[test]
fn join_of_defined_table_qualifies_clashing_names() {
    let q = parse_and_resolve("table emp id dept\ntable dep id title\nfrom emp\njoin dep dept").unwrap();
    let f = &q.main_pipeline[1].frame;
    assert_eq!(f.len(), 4);
    let names: Vec<Option<String>> = f.iter().map(|c| c.name.clone()).collect();
    assert_eq!(
        names,
        vec![
            Some("id".to_string()),
            Some("dept".to_string()),
            Some("dep.id".to_string()),
            Some("title".to_string())
        ]
    );
    for (i, c) in f.iter().enumerate() {
        assert_eq!(c.id, i);
    }
    match &f[2].expr {
        ColumnExpr::ExternRef { variable, table } => {
            assert_eq!(variable, "id");
            assert_eq!(*table, 1);
        }
        other => panic!("unexpected {:?}", other),
    }
    assert_eq!(q.tables, vec![9, 10]);
}

#[test]
fn caret_rules_of_bare_versions() {
    assert!(check_query_version("0.2", 0, 2, 0).is_ok());
    assert!(check_query_version("0.2", 0, 2, 99).is_ok());
    assert_eq!(check_query_version("0.2", 0, 3, 0).unwrap_err().kind, ErrorKind::UnsupportedVersion);
    assert_eq!(check_query_version("0.2", 1, 2, 0).unwrap_err().kind, ErrorKind::UnsupportedVersion);
    assert!(check_query_version("1.2", 1, 5, 0).is_ok());
    assert!(check_query_version("1.2.3", 1, 2, 4).is_ok());
    assert!(check_query_version("1.2.3", 1, 2, 2).is_err());
    assert!(check_query_version("0.0.3", 0, 0, 4).is_err());
    assert!(check_query_version("0", 0, 7, 1).is_ok());
    assert!(check_query_version("25", 0, 2, 11).is_err());
}

#[test]
fn header_with_own_version_alone_resolves() {
    let (q, _) = resolve(parse("prql version:\"0\"").unwrap(), None).unwrap();
    assert!(q.main_pipeline.is_empty());
    assert_eq!(q.def.version.as_deref(), Some("0"));
}

#[test]
fn unsupported_version_message_asks_for_upgrade() {
    let err = parse_and_resolve("prql version:\"25\"\nfrom t").unwrap_err();
    assert_eq!(
        err.message(),
        "This query uses a version of PRQL that is not supported by your prql-compiler. You may want to upgrade the compiler."
    );
    assert_eq!(parse("prql version:1").unwrap_err().message(), "the query could not be parsed");
}
