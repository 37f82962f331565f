# sluice

A compiler for sluice, a language for programming the data plane of a network as snippets that
run on switches. A program declares global variables, packets and snippets; a snippet declares
its variables and assigns them, with `if`/`else` blocks and ternaries. The compiler turns each
snippet into a P4 program for its device (BMv2 or Tofino) and, for BMv2, the commands that set up
its tables.

The library under `src/` is verified with Verus:

- `lexer`, `token`: the tokens of a program; rendering tokens and lexing the text back gives the
  same tokens (`lemma_lex_render`).
- `grammar`, `parser`: the syntax tree and its parser, specified by `spec_prog`;
  `round_trip` proves that parsing the tokens of a well-formed tree gives the tree back, also
  through the pretty printer (`pretty_printer`).
- `tree_fold`, `symbol_table_pass`: a walk over the syntax tree, each step stated as meeting the
  leaves of its node in order, and the pass that gathers the names it meets
  (`lemma_symbol_table_walk`).
- `basic_grammar`, `parser_impl`, `define_before_use_pass`, `code_gen`: the older snippet dialect
  and the passes over it.
- `def_use`: the check that every name is defined before it is used and defined once.
- `snippet_dag`: the graph of a snippet, with branch removal turning `if`/`else` blocks into
  ternary assignments. `removal_meaning` proves that the result computes what the blocks do,
  for a snippet whose every `else` block directly follows its `if` block (numbered one below it,
  as the parser numbers them) and that uses none of the names branch removal generates
  (`lemma_branch_removal_meaning`, and `lemma_parsed_branch_removal_meaning` for parsed snippets);
  `lemma_removal_node_count` gives the number of nodes it adds.
- `connections`, `offload`: read-after-write edges between statements (a statement gains as
  successors exactly the later statements that read what it writes, `lemma_raw_connections_edges`),
  the listing of the dependency graph, and a depth-first traversal proved to blacken exactly the
  reachable nodes.
- `trans_snippet`, `bmv2_gen`, `bmv2_program`, `bmv2_commands`, `tofino_gen`, `targets`: the P4
  text of each node, the P4 programs, the table commands, the placement of snippets on devices,
  and the files to write.

`app/main.rs` is the command-line program: it reads the source file and the packet library,
runs the library, and writes the generated files and plots.
