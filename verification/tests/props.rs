use ninja_syntax::escape_path;
use ninja_syntax::Build;
use ninja_syntax::Rule;
use ninja_syntax::Variable;
use ninja_syntax::Writer;

fn nw() -> Writer {
    Writer::new(":memory:")
}

#[test]
fn escape_single_characters() {
    assert_eq!("$$", escape_path("$"));
    assert_eq!("$ ", escape_path(" "));
    assert_eq!("$:", escape_path(":"));
}

#[test]
fn escape_mixed_token() {
    assert_eq!("a$ b$:c$$d", escape_path("a b:c$d"));
}

#[test]
fn escape_leaves_plain_characters_alone() {
    assert_eq!("foo.o", escape_path("foo.o"));
    assert_eq!("", escape_path(""));
}

#[test]
fn escape_twice_expands_strictly() {
    let t = "a b:c$d";
    let once = escape_path(t);
    let twice = escape_path(&once);
    assert!(twice.len() > once.len());
    assert_ne!(twice, once);
    assert_eq!("a$$$ b$$$:c$$$$d", twice);
}

#[test]
fn comment_empty() {
    assert_eq!("# \n", nw().comment("").as_str());
}

#[test]
fn pool_depth_rendering() {
    assert_eq!("pool p\n  depth = 0\n", nw().pool("p", 0).as_str());
    assert_eq!("pool p\n  depth = 123\n", nw().pool("p", 123).as_str());
}

#[test]
fn build_all_separators_combined() {
    assert_eq!(
        "build foo.o | foo.ast: cc foo.c | foo.h || bar.h\n",
        nw().build(
            &Build::new(&["foo.o"], "cc")
                .inputs(&["foo.c"])
                .implicit(&["foo.h"])
                .order_only(&["bar.h"])
                .implicit_outputs(&["foo.ast"])
        )
        .as_str()
    );
}

#[test]
fn build_escapes_all_path_kinds() {
    assert_eq!(
        "build o$ 1 | i$:o: r in$$1 | im$ p || oo$:x\n",
        nw().build(
            &Build::new(&["o 1"], "r")
                .inputs(&["in$1"])
                .implicit(&["im p"])
                .order_only(&["oo:x"])
                .implicit_outputs(&["i:o"])
        )
        .as_str()
    );
}

#[test]
fn build_variables_keep_their_order() {
    let vars = [("zeta", "1"), ("alpha", "2"), ("mid", "3")];
    assert_eq!(
        "build a: r\n  zeta = 1\n  alpha = 2\n  mid = 3\n",
        nw().build(&Build::new(&["a"], "r").variables(&vars)).as_str()
    );
}

#[test]
fn variable_within_width_stays_on_one_line() {
    // 74 characters of value: the composed line "k = <value>" is exactly 78
    // columns and still fits.
    let value = "a".repeat(74);
    let expected = format!("k = {}\n", value);
    assert_eq!(expected, nw().variable("k", &value, 0).as_str());
}

#[test]
fn variable_wraps_with_continuation_markers() {
    // Twelve 8-character tokens: the line breaks after the eighth, and the
    // continuation line is indented by two spaces and fits the rest.
    let value = ["aaaaaaaa"; 12].join(" ");
    let expected = "x = aaaaaaaa aaaaaaaa aaaaaaaa aaaaaaaa aaaaaaaa aaaaaaaa aaaaaaaa aaaaaaaa $\n  aaaaaaaa aaaaaaaa aaaaaaaa aaaaaaaa\n";
    assert_eq!(expected, nw().variable("x", &value, 0).as_str());
}

#[test]
fn variable_wraps_at_deeper_indent() {
    let value = ["aaaaaaaa"; 12].join(" ");
    let expected = "  x = aaaaaaaa aaaaaaaa aaaaaaaa aaaaaaaa aaaaaaaa aaaaaaaa aaaaaaaa $\n    aaaaaaaa aaaaaaaa aaaaaaaa aaaaaaaa aaaaaaaa\n";
    assert_eq!(expected, nw().variable("x", &value, 1).as_str());
}

#[test]
fn overlong_token_is_never_split() {
    let tok = "b".repeat(100);
    let expected = format!("x = $\n  {}\n", tok);
    assert_eq!(expected, nw().variable("x", &tok, 0).as_str());
}

#[test]
fn rule_long_command_wraps_indented() {
    // The command line is wrapped at indent level one: continuation lines
    // carry four spaces.
    let cmd = ["cccccccc"; 12].join(" ");
    let expected = "rule r\n  command = cccccccc cccccccc cccccccc cccccccc cccccccc cccccccc cccccccc $\n    cccccccc cccccccc cccccccc cccccccc cccccccc\n";
    assert_eq!(expected, nw().rule(&Rule::new("r", &cmd)).as_str());
}

#[test]
fn rule_empty_optional_fields_are_not_emitted() {
    assert_eq!(
        "rule cc\n  command = c\n",
        nw().rule(&Rule::new("cc", "c").description("").depfile("").pool("").rspfile("")).as_str()
    );
}

#[test]
fn bulk_with_newlines_matches_individual_emissions() {
    let builds = vec![
        Build::new(&["foo.o"], "cc").inputs(&["foo.c"]),
        Build::new(&["bar.o"], "cc").inputs(&["bar.c"]),
    ];
    let bulk = nw().write_builds(&builds, true).as_str();
    let individual = nw()
        .build(&builds[0])
        .newline()
        .build(&builds[1])
        .newline()
        .as_str();
    assert_eq!(individual, bulk);
    assert_eq!("build foo.o: cc foo.c\n\nbuild bar.o: cc bar.c\n\n", bulk);

    let vars = vec![Variable::new("a", "1", 0), Variable::new("b", "2", 0)];
    assert_eq!("a = 1\n\nb = 2\n\n", nw().write_variables(&vars, true).as_str());

    let rules = vec![Rule::new("cc", "c1"), Rule::new("ld", "c2")];
    assert_eq!(
        "rule cc\n  command = c1\n\nrule ld\n  command = c2\n\n",
        nw().write_rules(&rules, true).as_str()
    );
}

#[test]
fn escape_consecutive_spaces() {
    assert_eq!("a$ $ b", escape_path("a  b"));
}

#[test]
fn variable_list_empty_drops_trailing_space() {
    assert_eq!("foo =\n", nw().variable_list("foo", &[], 0).as_str());
}

#[test]
fn variable_value_keeps_inner_space_runs() {
    assert_eq!("a = x  y\n", nw().variable("a", "x  y", 0).as_str());
}

#[test]
fn writer_keeps_its_path() {
    let w = Writer::new("out/build.ninja");
    assert_eq!("out/build.ninja", w.path());
    assert_eq!("", w.as_str());
}

#[test]
fn setters_replace_previous_values() {
    let r = Rule::new("a", "b").name("c").command("d");
    assert_eq!("rule c\n  command = d\n", nw().rule(&r).as_str());
    let b = Build::new(&["x"], "r1").outputs(&["y"]).rule("r2");
    assert_eq!("build y: r2\n", nw().build(&b).as_str());
}
