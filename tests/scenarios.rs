use ergodox_keymap_parser::{
    decimal_string, parse_action, parse_actions, parse_integer, parse_key, parse_keymap,
    parse_keymaps, parse_string, skip_insignificant, textoutput, to_svg, Action, Key, Keyboard,
    KeyShape, ParseError, Press,
};
use std::collections::HashMap;

fn named(s: &str) -> Key {
    Key::Key(String::from(s))
}

#[test]
fn empty_keymap_call() {
    assert_eq!(parse_keymap("KEYMAP()"), Ok(vec![]));
}

#[test]
fn functional_and_named_keys() {
    assert_eq!(parse_keymap("KEYMAP(FN10,F10)"), Ok(vec![Key::Fx(10), named("F10")]));
}

#[test]
fn keymap_section_alone() {
    let input = "keymaps[][MATRIX_ROWS][MATRIX_COLS] = { KEYMAP(F11), KEYMAP(KC_11)};";
    assert_eq!(parse_keymaps(input), Ok(vec![vec![named("F11")], vec![named("KC_11")]]));
}

#[test]
fn action_section_alone() {
    let input = "fn_actions[] = { [1] = ACTION_LAYER_MOMENTARY(2), [3] = ACTION_LAYER_SET(88, ON_BOTH) };";
    let table = parse_actions(input).unwrap();
    assert_eq!(table.len(), 2);
    assert_eq!(table[&1], Action::LayerMomentary(2));
    assert_eq!(table[&3], Action::LayerSet(88, String::from("ON_BOTH")));
}

#[test]
fn comments_between_every_token() {
    let plain = "keymaps[][MATRIX_ROWS][MATRIX_COLS]={KEYMAP(A,FN3),KEYMAP(B)}\nfn_actions[]={[3]=ACTION_MODS_KEY(LSFT,X)}";
    let commented = "keymaps[][MATRIX_ROWS][MATRIX_COLS]/*a*/=// b\n{/*c*/KEYMAP/*d*/(/*e*/A/*f*/,//g\nFN3/*h*/)/*i*/,KEYMAP(\tB\r\n)/**/}\nfn_actions[] /*x*/ = /*y*/ { //z\n [ /*1*/ 3 /*2*/ ] /*3*/ = /*4*/ ACTION_MODS_KEY /*5*/ ( /*6*/ LSFT /*7*/ , /*8*/ X /*9*/ ) /*10*/ }";
    let a = parse_string(plain).unwrap();
    let b = parse_string(commented).unwrap();
    assert_eq!(a, b);
    assert_eq!(a.0, vec![vec![named("A"), Key::Fx(3)], vec![named("B")]]);
    assert_eq!(a.1[&3], Action::ModsKey(named("LSFT"), named("X")));
}

#[test]
fn unrelated_text_around_sections() {
    let sections = "keymaps[][MATRIX_ROWS][MATRIX_COLS] = { KEYMAP(Q, W) };\nfn_actions[] = { [0] = ACTION_FUNCTION(TEENSY) };\n";
    let surrounded = "#include \"keymap_common.h\"\n/* keymaps without the grid */\nint x = 3;\nconst uint8_t PROGMEM keymaps[][MATRIX_ROWS][MATRIX_COLS] = { KEYMAP(Q, W) };\nstatic void f(void) { return; }\nconst uint16_t PROGMEM fn_actions[] = { [0] = ACTION_FUNCTION(TEENSY) };\nvoid g(void) {}\n";
    assert_eq!(parse_string(sections).unwrap(), parse_string(surrounded).unwrap());
}

#[test]
fn header_inside_comment_is_passed_over() {
    let input = "/* fn_actions[] = { [9] = ACTION_FUNCTION(NOPE) }; */\nfn_actions[] = { [1] = ACTION_LAYER_TOGGLE(4) }";
    let table = parse_actions(input).unwrap();
    assert_eq!(table.len(), 1);
    assert_eq!(table[&1], Action::LayerToggle(4));
}

#[test]
fn later_definition_of_an_index_wins() {
    let input = "fn_actions[] = { [5] = ACTION_LAYER_MOMENTARY(1), [6] = ACTION_LAYER_TOGGLE(2), [5] = ACTION_DEFAULT_LAYER_SET(7), }";
    let table = parse_actions(input).unwrap();
    assert_eq!(table.len(), 2);
    assert_eq!(table[&5], Action::DefaultLayerSet(7));
    assert_eq!(table[&6], Action::LayerToggle(2));
}

#[test]
fn unknown_action_suffix_fails() {
    assert_eq!(parse_action("ACTION_LAYER_BOGUS(1)"), Err(ParseError::UnknownAction));
    let input = "keymaps[][MATRIX_ROWS][MATRIX_COLS] = { KEYMAP(A) }\nfn_actions[] = { [0] = ACTION_FUNCTIONS(A) }";
    assert_eq!(parse_string(input), Err(ParseError::UnknownAction));
}

#[test]
fn not_an_action_call_fails() {
    assert_eq!(parse_action("LAYER_SET(1, ON_BOTH)"), Err(ParseError::Syntax));
}

#[test]
fn unterminated_comment_fails() {
    let input = "keymaps[][MATRIX_ROWS][MATRIX_COLS] = { KEYMAP(A) /* open }\nfn_actions[] = { }";
    assert_eq!(parse_string(input), Err(ParseError::UnterminatedComment));
    assert_eq!(skip_insignificant("  /* never closed *"), Err(ParseError::UnterminatedComment));
    assert_eq!(skip_insignificant("/*/"), Err(ParseError::UnterminatedComment));
}

#[test]
fn missing_closing_brace_fails() {
    let input = "keymaps[][MATRIX_ROWS][MATRIX_COLS] = { KEYMAP(A), KEYMAP(B)\nfn_actions[] = { }";
    assert_eq!(parse_string(input), Err(ParseError::Syntax));
    assert_eq!(parse_actions("fn_actions[] = { [1] = ACTION_LAYER_TOGGLE(4)"), Err(ParseError::Syntax));
}

#[test]
fn missing_section_fails() {
    assert_eq!(parse_string("keymaps[][MATRIX_ROWS][MATRIX_COLS] = { }"), Err(ParseError::SectionNotFound));
    assert_eq!(parse_keymaps("fn_actions[] = { }"), Err(ParseError::SectionNotFound));
    assert_eq!(parse_keymaps(""), Err(ParseError::SectionNotFound));
}

#[test]
fn empty_sections() {
    let (kmv, table) = parse_string("keymaps[][MATRIX_ROWS][MATRIX_COLS] = {}; fn_actions[] = {};").unwrap();
    assert!(kmv.is_empty());
    assert!(table.is_empty());
}

#[test]
fn missing_comma_fails() {
    assert_eq!(parse_keymap("KEYMAP(A B)"), Err(ParseError::Syntax));
    assert_eq!(parse_keymap("KEYMAP(,)"), Err(ParseError::Syntax));
}

#[test]
fn trailing_comma_is_accepted() {
    assert_eq!(parse_keymap("KEYMAP(A, B,)"), Ok(vec![named("A"), named("B")]));
}

#[test]
fn integers_round_trip() {
    for n in [0u64, 7, 10, 99, 100, 12345, 4294967296, u64::MAX] {
        let text = decimal_string(n);
        assert_eq!(parse_integer(&text), Ok(n));
        assert_eq!(text, n.to_string());
    }
}

#[test]
fn integer_edge_cases() {
    assert_eq!(parse_integer("0"), Ok(0));
    assert_eq!(parse_integer("0123"), Err(ParseError::InvalidInteger));
    assert_eq!(parse_integer("18446744073709551615"), Ok(u64::MAX));
    assert_eq!(parse_integer("18446744073709551616"), Err(ParseError::InvalidInteger));
    assert_eq!(parse_integer("x"), Err(ParseError::Syntax));
    assert_eq!(parse_integer(" 42 // answer"), Ok(42));
}

#[test]
fn fn_prefix_without_digits_is_a_name() {
    assert_eq!(parse_key("FNORD"), Ok(named("FNORD")));
    assert_eq!(parse_key("FN"), Ok(named("FN")));
    assert_eq!(parse_key("FN0"), Ok(Key::Fx(0)));
    assert_eq!(parse_key("  SPC  "), Ok(named("SPC")));
}

#[test]
fn key_text_round_trip() {
    assert_eq!(Key::Fx(14).text(), "FN14");
    assert_eq!(named("LGUI").text(), "LGUI");
    assert_eq!(parse_key(&Key::Fx(907).text()), Ok(Key::Fx(907)));
}

#[test]
fn line_comment_at_end_of_input() {
    assert_eq!(skip_insignificant(" // trailing"), Ok(12));
    assert_eq!(skip_insignificant("\t\r\n x"), Ok(4));
}

#[test]
fn all_action_forms() {
    assert_eq!(parse_action("ACTION_LAYER_SET_CLEAR(3)"), Ok(Action::LayerSetClear(3)));
    assert_eq!(parse_action("ACTION_LAYER_TOGGLE(4)"), Ok(Action::LayerToggle(4)));
    assert_eq!(parse_action("ACTION_LAYER_TAP_TOGGLE(5)"), Ok(Action::LayerTapToggle(5)));
    assert_eq!(parse_action("ACTION_DEFAULT_LAYER_SET(6)"), Ok(Action::DefaultLayerSet(6)));
    assert_eq!(parse_action("ACTION_LAYER_TAP_KEY(1, FN2)"), Ok(Action::LayerTapKey(1, Key::Fx(2))));
    assert_eq!(parse_action("ACTION_FUNCTION_TAP ( X )"), Ok(Action::FunctionTap(named("X"))));
}

#[test]
fn legends_of_names() {
    assert_eq!(textoutput("KC_COMM"), (String::from(","), String::from("<")));
    assert_eq!(textoutput("MOD_LSFT"), (String::from("LSFT"), String::new()));
    assert_eq!(textoutput("KC_1"), (String::from("1"), String::from("!")));
    assert_eq!(textoutput("NO"), (String::new(), String::new()));
    assert_eq!(textoutput("KC_KC_A"), (String::from("A"), String::new()));
    assert_eq!(textoutput("F11"), (String::from("F11"), String::new()));
}

#[test]
fn key_faces() {
    let mut table = HashMap::new();
    table.insert(1, Action::LayerSet(3, String::from("ON_BOTH")));
    table.insert(2, Action::LayerTapKey(4, named("SPC")));
    table.insert(3, Action::ModsTapKey(named("LSFT"), Key::Fx(9)));
    let kb = Keyboard::new(vec![vec![named("A"), Key::Fx(1), Key::Fx(2), Key::Fx(3), Key::Fx(8)]], table);

    let f = kb.face(0, 0);
    assert_eq!(f.press, Press::Plain);
    assert_eq!(f.captions.len(), 1);
    assert_eq!((f.captions[0].text.as_str(), f.captions[0].y), ("A", 25));

    let f = kb.face(0, 1);
    assert_eq!(f.press, Press::OnlyLayer(3));
    assert_eq!((f.captions[0].text.as_str(), f.captions[0].y), ("#3", 25));

    let f = kb.face(0, 2);
    assert_eq!(f.press, Press::Momentary(4));
    assert_eq!((f.captions[0].text.as_str(), f.captions[0].y), ("SPC", 25));
    assert_eq!((f.captions[1].text.as_str(), f.captions[1].y), ("~L4", 50));

    let f = kb.face(0, 3);
    assert_eq!(f.press, Press::Plain);
    assert_eq!((f.captions[0].text.as_str(), f.captions[0].y), ("LSFT", 0));
    assert_eq!((f.captions[1].text.as_str(), f.captions[1].y), ("HRM..", 50));

    let f = kb.face(0, 4);
    assert_eq!((f.captions[0].text.as_str(), f.captions[0].y), ("BROKEN", 0));

    let f = kb.face(0, 70);
    assert_eq!(f.press, Press::Plain);
    assert!(f.captions.is_empty());
    assert!(kb.face(1, 0).captions.is_empty());
}

#[test]
fn key_shapes() {
    assert_eq!(KeyShape::K10u.size(), (100, 100));
    assert_eq!(KeyShape::K15h.size(), (150, 100));
    assert_eq!(KeyShape::K15v.size(), (100, 150));
    assert_eq!(KeyShape::K20v.size(), (100, 200));
}

#[test]
fn picture_of_a_layout() {
    let input = "keymaps[][MATRIX_ROWS][MATRIX_COLS] = { KEYMAP(KC_COMM, FN1, FN2), KEYMAP(B) };\nfn_actions[] = { [1] = ACTION_LAYER_MOMENTARY(1) };";
    let svg = to_svg(input).unwrap();
    assert!(svg.starts_with("<svg"));
    assert!(svg.contains("xmlns=\"http://www.w3.org/2000/svg\""));
    assert!(svg.contains("viewBox=\"0 0 2000 625\""));
    assert!(svg.contains("id=\"layer0\""));
    assert!(svg.contains("id=\"layer1\""));
    assert!(!svg.contains("id=\"layer2\""));
    assert!(svg.contains("onmousedown=\"templayeron(1)\""));
    assert!(svg.contains("onmouseup=\"templayeroff(1)\""));
    assert!(svg.contains("BROKEN"));
    assert!(svg.contains("&lt;"));
    assert!(svg.contains("transform=\"translate(650,250)\""));
    assert!(svg.contains("width=\"148\""));
}

#[test]
fn picture_of_an_invalid_source_fails() {
    assert_eq!(to_svg("no sections here"), Err(ParseError::SectionNotFound));
}

#[test]
fn picture_embeds_style_and_script() {
    let kb = Keyboard::new(vec![], HashMap::new());
    let svg = kb.svg_with(".normal { font-size: 20px; }", "function templayeron(l) {}");
    assert!(svg.contains("font-size: 20px"));
    assert!(svg.contains("function templayeron(l)"));
}

#[test]
fn picture_of_full_layers() {
    let mut keys = Vec::new();
    for i in 0..76 {
        keys.push(if i % 2 == 0 { format!("KC_{}", i % 10) } else { String::from("FN1") });
    }
    let source = format!(
        "keymaps[][MATRIX_ROWS][MATRIX_COLS] = {{ KEYMAP({}), KEYMAP({}) }};\nfn_actions[] = {{ [1] = ACTION_LAYER_SET(1, ON_PRESS) }};",
        keys.join(", "),
        keys.join(", ")
    );
    let (kmv, table) = parse_string(&source).unwrap();
    assert_eq!(kmv.len(), 2);
    assert_eq!(kmv[0].len(), 76);
    let svg = Keyboard::new(kmv, table).svg();
    assert!(svg.contains("id=\"layer1\""));
    assert!(svg.contains("onclick=\"onlylayer(1)\""));
    assert!(svg.contains("transform=\"translate(1000,0)\""));
    assert!(svg.contains("transform=\"translate(200,100)\""));
    assert_eq!(svg.matches("onlylayer(1)").count(), 76);
}

#[test]
fn picture_tree_structure() {
    let mut table = HashMap::new();
    table.insert(1, Action::LayerMomentary(2));
    let kb = Keyboard::new(vec![vec![named("KC_COMM"), Key::Fx(1), Key::Fx(7)]], table);
    let tree = kb.tree("css", "js");
    assert_eq!(tree.tag, "svg");
    assert_eq!(tree.attrs[1], (String::from("viewBox"), String::from("0 0 2000 625")));
    assert_eq!(tree.children.len(), 4);
    assert_eq!(tree.children[0].texts, vec![String::from("css")]);
    assert_eq!(tree.children[1].texts, vec![String::from("js")]);
    let layer = &tree.children[3].children[0];
    assert_eq!(layer.attrs[0], (String::from("id"), String::from("layer0")));
    let left_main = &layer.children[0].children[0];
    assert_eq!(left_main.children.len(), 32);
    let first = &left_main.children[0];
    assert_eq!(first.attrs[0], (String::from("transform"), String::from("translate(0,0)")));
    assert_eq!(first.children.len(), 5);
    assert_eq!(first.children[0].attrs[2], (String::from("width"), String::from("148")));
    assert_eq!(first.children[3].texts, vec![String::from("<")]);
    assert_eq!(first.children[4].texts, vec![String::from(",")]);
    let second = &left_main.children[1];
    assert_eq!(second.attrs[1], (String::from("onmousedown"), String::from("templayeron(2)")));
    let third = &left_main.children[2];
    assert_eq!(third.children[4].texts, vec![String::from("BROKEN")]);
    let empty_key = &left_main.children[3];
    assert_eq!(empty_key.children.len(), 3);
    assert_eq!(empty_key.attrs.len(), 1);
}
