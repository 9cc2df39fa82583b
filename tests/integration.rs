use spade::items::build_items;

#[test]
fn namespacing_works() {
    let code = r#"
        mod X {
            entity x() -> int<2> {
                1
            }
        }

        entity top() -> int<2> {
            inst X::x()
        }
    "#;

    build_items(code).unwrap();
}

#[test]
fn use_statements_work() {
    let code = r#"
        mod X {
            entity x() -> int<2> {
                1
            }
        }

        use X::x;

        entity top() -> int<2> {
            inst x()
        }
        "#;

    build_items(code).unwrap();
}

#[test]
fn renaming_use_statements_work() {
    let code = r#"
        mod X {
            entity x() -> int<2> {
                1
            }
        }

        use X::x as a;

        entity top() -> int<2> {
            inst a()
        }
        "#;

    build_items(code).unwrap();
}

#[test]
fn recursive_use_statements_work() {
    let code = r#"
        mod X {
            mod Y {
                entity x() -> int<2> {
                    1
                }
            }
            use Y::x;
        }

        use X::x as a;

        entity top() -> int<2> {
            inst a()
        }
    "#;

    build_items(code).unwrap();
}

#[test]
fn using_names_in_namespaces_works() {
    let code = r#"
        mod X {
            enum A {X{a: bool}}

            entity x() -> A {
                A::X(true)
            }
        }
        "#;

    build_items(code).unwrap();
}

#[test]
fn using_names_of_types_in_namespaces_works() {
    let code = r#"
        mod X {
            struct A {}
            struct B{a: A}
        }
        "#;

    build_items(code).unwrap();
}

#[test]
fn accessing_fields_on_self_works() {
        let code = "
            struct X {
                a: int<8>
            }

            impl X {
                fn x(self) -> int<8> {
                    self.a
                }
            }
        ";

    build_items(code).unwrap();
}

#[test]
fn calling_method_does_not_error() {
        let code = "
            struct X {}
            impl X {
                fn test() -> bool {true}
            }

            fn main(x: X) -> bool {
                x.test()
            }
        ";

    build_items(code).unwrap();
}

#[test]
fn names_of_a_module_need_its_path() {
    let code = r#"
        mod X {
            entity x() -> int<2> {
                1
            }
        }

        entity top() -> int<2> {
            x()
        }
    "#;

    assert_eq!(
        build_items(code).unwrap_err(),
        spade::items::BuildError::Unresolved(vec!["x".to_string()])
    );
}

#[test]
fn unknown_types_are_unresolved() {
    let code = "struct B { a: Missing }";
    assert!(matches!(build_items(code), Err(spade::items::BuildError::Unresolved(p)) if p == vec!["Missing".to_string()]));
}

#[test]
fn malformed_items_are_syntax_errors() {
    assert!(matches!(build_items("entity x( -> int<2> { 1 }"), Err(spade::items::BuildError::Syntax(_))));
    assert!(matches!(build_items("entity % x"), Err(spade::items::BuildError::Lexer(1))));
}

#[test]
fn nesting_beyond_the_limit_is_reported() {
    let depth = 70;
    let code = format!("{}{}", "mod a { ".repeat(depth), "} ".repeat(depth));
    assert!(matches!(build_items(&code), Err(spade::items::BuildError::TooDeep)));
    let shallow = format!("{}{}", "mod a { ".repeat(3), "} ".repeat(3));
    assert!(build_items(&shallow).is_ok());
}
