use sluice::def_use::{DefUse, DefUseError, VarState};
use sluice::lexer::get_tokens;
use sluice::parser::parse_prog;

fn s(x: &str) -> String {
    x.to_string()
}

fn run_def_use(input_program: &str) -> Result<DefUse, DefUseError> {
    let tokens = get_tokens(input_program).unwrap();
    let parse_tree = parse_prog(&tokens).unwrap();
    let mut def_use = DefUse::new();
    def_use.visit_prog(&parse_tree)?;
    Ok(def_use)
}

#[test]
fn test_def_use_undefined_fail() {
    // y used before definition
    let input_program = r"snippet fun() {
                 input x : bit<2>;
                 b = y;
                 m = 5;
               }
             ";
    assert_eq!(run_def_use(input_program).err(), Some(DefUseError::UsedBeforeDefinition(s("y"))));
}

#[test]
fn test_def_use_undefined2_fail() {
    // x used before definition
    let input_program = r"snippet fun() {
                 input a : bit<2>;
                 x = x + 1;
               }
             ";
    assert_eq!(run_def_use(input_program).err(), Some(DefUseError::UsedBeforeDefinition(s("x"))));
}

#[test]
fn test_def_use_duplicate_snippets_fail() {
    // Can't have two snippets named foo.
    let input_program = r"snippet foo() {} snippet foo() {}";
    assert_eq!(run_def_use(input_program).err(), Some(DefUseError::DuplicateSnippet(s("foo"))));
}

#[test]
fn test_def_use_undeclared_fail() {
    // Defining variable x that isn't declared in foo.
    let input_program = r"snippet foo() {
                 input a : bit<2>;
                 input b : bit<2>;
                 input c : bit<2>;
                 x = a;
             }";
    assert_eq!(run_def_use(input_program).err(), Some(DefUseError::UndeclaredVariable(s("x"), s("foo"))));
}

#[test]
fn test_def_use1() {
    let input_program = r"snippet foo() {
                 input a : bit<2>;
                 input b : bit<2>;
                 input c : bit<2>;
                 transient x: bit<2>;
                 x = a;
             }";
    assert!(run_def_use(input_program).is_ok());
}

#[test]
fn test_def_use2() {
    let input_program = r"snippet foo() {
                 transient d : bit<2>;
                 transient x : bit<2>;
                 d = 1;
                 x = d;
             }";
    assert!(run_def_use(input_program).is_ok());
}

#[test]
fn test_def_use3() {
    let input_program = r"snippet foo() {
                 transient x : bit<1> = 1;
                 persistent d : bit<1> = 1;
                 x = d;
             }";
    assert!(run_def_use(input_program).is_ok());
}

#[test]
fn test_def_use4() {
    let input_program = r"snippet foo() {
                input a : bit<2>;
                input b : bit<2>;
                persistent d : bit<1> = 1;
                transient x : bit<1>;
                transient y : bit<1>;
                y = d + a;
                x = d ? a : b;
             }";
    assert!(run_def_use(input_program).is_ok());
}

#[test]
fn test_def_use_redefined_persistent_arglist_fail() {
    // Variable x is declared twice in fun.
    let input_program = r"snippet fun() {
                 input c : bit<2>;
                 input x : bit<2>;
                 persistent x : bit<1> = 0;
             }";
    assert_eq!(run_def_use(input_program).err(), Some(DefUseError::DuplicateVariable(s("x"), s("fun"))));
}

#[test]
fn test_def_use_connections_empty() {
    let input_program = r"snippet foo() {} snippet bar() {}";
    assert!(run_def_use(input_program).is_ok());
}

#[test]
fn test_def_use_connections() {
    let input_program = r"snippet foo() {output c : bit<2>;} snippet fun() { input d : bit<2>;} (foo, fun):c->d,";
    assert!(run_def_use(input_program).is_ok());
}

#[test]
fn test_def_use_connections2() {
    let input_program = r"snippet foo() {output c : bit<2>[1];} snippet fun() { input d : bit<2>;} (foo, fun):c->d,";
    assert!(run_def_use(input_program).is_ok());
}

#[test]
fn test_def_use_connections_bitwidth_fail() {
    // Bit widths differ in the connection from foo.c to fun.d.
    let input_program = r"snippet foo() {output c : bit<1>;} snippet fun() { input d : bit<2>;} (foo, fun):c->d,";
    assert_eq!(run_def_use(input_program).err(), Some(DefUseError::WidthMismatch(s("foo"), s("c"), s("fun"), s("d"))));
}

#[test]
fn test_def_use_connections_varsize_fail() {
    // Var sizes differ in the connection from foo.c to fun.d
    let input_program = r"snippet foo() {output c : bit<1>[2];} snippet fun() { input d : bit<1>;} (foo, fun):c->d,";
    assert_eq!(run_def_use(input_program).err(), Some(DefUseError::SizeMismatch(s("foo"), s("c"), s("fun"), s("d"))));
}

#[test]
fn test_def_use_connection_fail1() {
    // Trying to connect non-output variable c in origin snippet foo
    let input_program = r"snippet foo() {input c : bit<2>;} snippet fun() { input d : bit<2>;} (foo, fun):c->d,";
    assert_eq!(run_def_use(input_program).err(), Some(DefUseError::NotOutput(s("c"), s("foo"))));
}

#[test]
fn test_def_use_connection_fail2() {
    // Trying to connect non-input variable d in destination snippet fun
    let input_program = r"snippet foo() {output c : bit<2>;} snippet fun() { output d : bit<2>;} (foo, fun):c->d,";
    assert_eq!(run_def_use(input_program).err(), Some(DefUseError::NotInput(s("d"), s("fun"))));
}

#[test]
fn test_def_use_connections_undefined_snippet_fail() {
    // foo connected, but undefined
    let input_program = r"(foo, fun)";
    assert_eq!(run_def_use(input_program).err(), Some(DefUseError::UndefinedSnippet(s("foo"))));
}

#[test]
fn test_def_use_connections_undefined_variable_fail() {
    // Trying to connect non-existent variable c from snippet foo
    let input_program = r"snippet foo() {
               }
               snippet fun() {
                 input d : bit<2>;
               } (foo, fun):c->d,
             ";
    assert_eq!(run_def_use(input_program).err(), Some(DefUseError::NonexistentVariable(s("c"), s("foo"))));
}

#[test]
fn test_def_use_repeated_arguments_fail() {
    // Variable a is declared twice in foo.
    let input_program = r"snippet foo() {
                 input a : bit<2>;
                 input a : bit<2>;
             }";
    assert_eq!(run_def_use(input_program).err(), Some(DefUseError::DuplicateVariable(s("a"), s("foo"))));
}

#[test]
fn test_def_use_two_arguments() {
    let input_program = r"snippet foo() {
                 input a : bit<2>;
                 input b : bit<2>;
             }";
    assert!(run_def_use(input_program).is_ok());
}

#[test]
fn test_def_use_redefine_input_fail() {
    // Trying to update input variable a in foo. Inputs are implicity defined by caller.
    let input_program = r"snippet foo() {
                 input a : bit<2>;
                 a = 1;
             }";
    assert_eq!(run_def_use(input_program).err(), Some(DefUseError::UpdatedInput(s("a"), s("foo"))));
}

#[test]
fn test_def_use_redefine_persistent() {
    let input_program = r"snippet foo() {
                 input a : bit<2>;
                 input b : bit<2>;
                 persistent d : bit<2> = 1;
                 d = 5;
             }";
    assert!(run_def_use(input_program).is_ok());
}

#[test]
fn test_def_use_reupdate_persistent_fail() {
    // Can update a persistent variable at most once.
    let input_program = r"snippet foo() {
                 input a : bit<2>;
                 input b : bit<2>;
                 persistent d : bit<2> = 1;
                 d = 5;
                 d = 6;
             }";
    assert_eq!(run_def_use(input_program).err(), Some(DefUseError::UpdatedTwice(s("d"))));
}

#[test]
fn test_def_use_const_update_fail() {
    // Trying to update const variable x in foo.
    let input_program = r"snippet foo() {
                 input a : bit<2>;
                 input b : bit<2>;
                 const x : bit<2> = 1;
                 x = 1;
             }";
    assert_eq!(run_def_use(input_program).err(), Some(DefUseError::UpdatedConst(s("x"), s("foo"))));
}

#[test]
fn test_def_use_packet_declared_fail() {
    // Packet pac not declared
    let input_program = r"
              snippet foo() {
                 output a : pac;
              }";
    assert_eq!(run_def_use(input_program).err(), Some(DefUseError::UndeclaredPacket(s("pac"))));
}

#[test]
fn test_def_use_redeclare_global_fail() {
    // Global variable a is declared twice
    let input_program = r"
              global a : bit<1> = 1;
              global a : bit<1> = 0;
              ";
    assert_eq!(run_def_use(input_program).err(), Some(DefUseError::DuplicateGlobal(s("a"))));
}

#[test]
fn test_def_use_redeclare_packet_fail() {
    // Can't have two packets named a
    let input_program = r"
              packet a : udp (srcPort : 1) {}
              packet a : udp (srcPort : 1) {}
              ";
    assert_eq!(run_def_use(input_program).err(), Some(DefUseError::DuplicatePacket(s("a"))));
}

#[test]
fn test_def_use_duplicate_field_names_fail() {
    // Field a is declared twice in pac.
    let input_program = r"
              packet pac : udp (srcPort : 1) {
                a : bit<1>;
                a : bit<1>;
              }
              ";
    assert_eq!(run_def_use(input_program).err(), Some(DefUseError::DuplicateField(s("a"), s("pac"))));
}

#[test]
fn test_def_use_field_in_packet_fail() {
    // Packet pac has no field named r.
    let input_program = r"
              packet pac : udp (srcPort : 1) {
                q : bit<1>;
              }

              snippet foo() {
                 output x : pac;
                 x.r = 1;
              }";
    assert_eq!(run_def_use(input_program).err(), Some(DefUseError::NoSuchField(s("pac"), s("r"))));
}

#[test]
fn test_def_use_field_in_bitarray_fail() {
    // Only packets can have fields
    let input_program = r"
              packet pac : udp (srcPort : 1) {
                q : bit<1>;
              }

              snippet foo() {
                 output x : bit<1>;
                 x.r = 1;
              }";
    assert_eq!(run_def_use(input_program).err(), Some(DefUseError::FieldOfNonPacket(s("x"), s("r"))));
}

#[test]
fn test_def_use_field_of_undeclared_var_fail() {
    // Defining variable x that isn't declared in foo
    let input_program = r"
              packet pac : udp (srcPort : 1) {
                a : bit<1>;
              }

              snippet foo() {
                 x.a = 1;
              }";
    assert_eq!(run_def_use(input_program).err(), Some(DefUseError::UndeclaredVariable(s("x"), s("foo"))));
}

#[test]
fn test_def_use_field_redefining_variable_fail() {
    // Redefining variable a that is already defined in foo
    let input_program = r"
              snippet foo() {
                 output a : bit<1>;
                 a = 0;
                 a = 1;
              }";
    assert_eq!(run_def_use(input_program).err(), Some(DefUseError::Redefined(s("a"), s("foo"))));
}

#[test]
fn def_use_states_after_check() {
    let d = run_def_use(
        r"snippet foo() {
            input a : bit<2>;
            persistent p : bit<2> = 1;
            transient t : bit<2>;
            t = a;
            p = 3;
        }",
    )
    .unwrap();
    let table = d.get_symbol_table("foo");
    assert_eq!(table.len(), 3);
    for (name, meta) in &table {
        let expected = match name.as_str() {
            "a" => VarState::Defined,
            "p" => VarState::Updated,
            "t" => VarState::Defined,
            _ => panic!("unexpected variable"),
        };
        assert_eq!(meta.get_var_state(), expected);
    }
    assert!(d.get_symbol_table("bar").is_empty());
}

#[test]
fn def_use_packet_fields_are_recorded() {
    let d = run_def_use(
        r"packet pac : udp (srcPort : 1) {
            q : bit<3>;
          }
          snippet foo() {
            output x : pac;
            x.q = 1;
          }",
    );
    match d {
        Ok(d) => {
            let fields = d.get_packet_table("pac");
            assert_eq!(fields.len(), 1);
            assert_eq!(fields[0].0, "q");
        },
        Err(e) => panic!("{:?}", e),
    }
}

#[test]
fn def_use_used_after_update() {
    let r = run_def_use(
        r"snippet foo() {
            persistent p : bit<2> = 1;
            transient t : bit<2>;
            p = 3;
            t = p;
        }",
    );
    assert_eq!(r.err(), Some(DefUseError::UsedAfterUpdate(s("p"))));
}

#[test]
fn def_use_is_defined_in_current_snippet() {
    let d = run_def_use(
        r"global g : bit<1> = 1;
          snippet foo() {
            input a : bit<2>;
            transient t : bit<2>;
          }",
    )
    .unwrap();
    assert!(d.is_defined("g"));
    assert!(d.is_defined("a"));
    assert!(!d.is_defined("t"));
    assert!(!d.is_defined("zz"));
}
