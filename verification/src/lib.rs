pub mod token;
pub mod lexer;
pub mod grammar;
pub mod parsing;
pub mod parser;
pub mod basic_grammar;
pub mod parser_impl;
pub mod pretty_printer;
pub mod tree_fold;
pub mod symbol_table_pass;
pub mod code_gen;
pub mod define_before_use_pass;
pub mod def_use;
pub mod trans_snippet;
pub mod bmv2_gen;
pub mod bmv2_program;
pub mod round_trip;
pub mod bmv2_commands;
pub mod snippet_dag;
pub mod tofino_gen;
pub mod removal_meaning;
pub mod connections;
pub mod targets;
pub mod offload;
