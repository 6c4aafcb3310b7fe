use java_guard::ast::{BlockStmt, ClassDecl, CompilationUnit, ImportDecl, MemberDecl, MethodDecl, TypeDecl};
use java_guard::matcher::members_of;

fn sample_unit() -> CompilationUnit {
    CompilationUnit {
        package: Some("com.example".to_string()),
        imports: vec![ImportDecl {
            package: "java.util".to_string(),
            is_wildcard: false,
            is_static: false,
            line: 1,
        }],
        types: vec![TypeDecl::ClassDeclaration(ClassDecl {
            name: "Foo".to_string(),
            modifiers: vec!["public".to_string()],
            annotations: vec![],
            extends: None,
            implements: vec![],
            members: vec![MemberDecl::MethodDeclaration(MethodDecl {
                name: "bar".to_string(),
                modifiers: vec![],
                annotations: vec![],
                return_type: Some("void".to_string()),
                parameters: vec![],
                body: Some(BlockStmt { statements: vec![], line: 2, end_line: 4 }),
                line: 2,
                end_line: 4,
            })],
            line: 1,
            end_line: 5,
        })],
        source_file: "Foo.java".to_string(),
        source_lines: vec![],
        raw_json: String::new(),
    }
}

#[test]
fn sample_unit_structure_is_navigable() {
    let unit = sample_unit();
    assert_eq!(unit.package.as_deref(), Some("com.example"));
    assert_eq!(unit.imports.len(), 1);
    assert_eq!(unit.imports[0].package, "java.util");
    assert_eq!(unit.source_file, "Foo.java");
    match &unit.types[0] {
        TypeDecl::ClassDeclaration(c) => {
            assert_eq!(c.name, "Foo");
            assert_eq!(c.modifiers, vec!["public".to_string()]);
            assert_eq!(c.line, 1);
            assert_eq!(c.end_line, 5);
            match &c.members[0] {
                MemberDecl::MethodDeclaration(m) => {
                    assert_eq!(m.name, "bar");
                    assert_eq!(m.return_type.as_deref(), Some("void"));
                    assert_eq!(m.body.as_ref().unwrap().end_line, 4);
                }
                _ => panic!("expected MethodDeclaration"),
            }
        }
        _ => panic!("expected ClassDeclaration"),
    }
    assert_eq!(members_of(&unit.types[0]).len(), 1);
}
