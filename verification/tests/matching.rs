use inspi::engine::error::ParseError;
use inspi::engine::node::Node;
use inspi::engine::node::NodeContent;
use inspi::rules::from_spec::CompileError;
use inspi::rules::grammar::Grammar;
use inspi::rules::literal::in_range;
use inspi::rules::literal::Literal;
use inspi::rules::literal::LiteralContent;
use inspi::rules::rule::Rule;
use inspi::rules::rule::RuleList;
use inspi::rules::rule::RuleOrs;
use inspi::rules::rule::RulePiece;
use inspi::rules::rule::RulePieceContent;
use inspi::spec_parser::grammar::Grammar as SpecGrammar;
use inspi::spec_parser::rule_piece::Repetition;

fn compile(text: &[u8]) -> Result<Grammar<'_>, CompileError<'_>> {
    let (spec, _) = SpecGrammar::parse_len(text).unwrap();
    Grammar::try_from(&spec)
}

#[test]
fn matches() {
    let inputs: [(&[u8], Literal, bool, Option<&[u8]>); 6] = [
        (
            b"oleniso  burger",
            LiteralContent::Range { from: 'a', to: 'z' }.into(),
            true,
            Some(b"oleniso"),
        ),
        (
            b"AAAAAAAAaaaa",
            LiteralContent::Range { from: 'A', to: 'Z' }.into(),
            true,
            Some(b"AAAAAAAA"),
        ),
        (
            b"AAAAAAAAaaaa",
            LiteralContent::Range { from: 'A', to: 'Z' }.into(),
            false,
            Some(b"A"),
        ),
        (
            b"aperol",
            LiteralContent::Range { from: 'a', to: 'p' }.into(),
            true,
            Some(b"ape"),
        ),
        (
            b"hamburger mobile",
            LiteralContent::Str(b"hamburg").into(),
            false,
            Some(b"hamburg"),
        ),
        (b"hamburger mobile", LiteralContent::Str(b"mobile").into(), true, None),
    ];

    for (input, literal, repeated, expected) in inputs {
        let got = literal.match_str(input, repeated);
        assert_eq!(expected, got);
    }
}

#[test]
fn is_in_range() {
    #[derive(Debug, Copy, Clone)]
    struct TestCase {
        from: char,
        to: char,
        input: char,
        expected: bool,
    }

    let cases = [
        TestCase { from: 'a', to: 'z', input: 'b', expected: true },
        TestCase { from: 'a', to: 'z', input: 'B', expected: false },
        TestCase { from: 'A', to: 'Z', input: 'B', expected: true },
        TestCase { from: 'a', to: 'z', input: ' ', expected: false },
        TestCase { from: '0', to: '9', input: ' ', expected: false },
        TestCase { from: '0', to: '9', input: '3', expected: true },
        TestCase { from: '0', to: '9', input: '0', expected: true },
        TestCase { from: 'a', to: 'z', input: 'z', expected: true },
    ];

    for tc in cases {
        assert_eq!(in_range(tc.input, tc.from, tc.to), tc.expected)
    }
}

#[test]
fn ors() {
    let input: &[u8] = b"cane";
    let rules = RuleOrs(vec![
        RuleList(vec![RulePiece {
            content: RulePieceContent::Literal((&b"Marco"[..]).into()),
            repetition: Repetition::Single,
        }]),
        RuleList(vec![RulePiece {
            content: RulePieceContent::Literal((&b"gallina"[..]).into()),
            repetition: Repetition::RepeatSeparate,
        }]),
        RuleList(vec![RulePiece {
            content: RulePieceContent::Literal((&b"gatto"[..]).into()),
            repetition: Repetition::RepeatTogether,
        }]),
        RuleList(vec![RulePiece {
            content: RulePieceContent::Literal((&b"cane"[..]).into()),
            repetition: Repetition::RepeatTogether,
        }]),
    ]);

    let rule = Rule { name: b"animale", rule: rules };
    let grammar = Grammar { rules: vec![rule] };

    let (node, _) = Node::from_grammar(&grammar, input).unwrap();

    let expected = Node {
        name: Some(b"animale"),
        content: NodeContent::Cons(vec![Node {
            name: Some(b"cane"),
            content: NodeContent::Literal(b"cane"),
        }]),
    };

    assert_eq!(node, expected);
}

#[test]
fn longest_match_wins() {
    let grammar_text: &[u8] = b"<r>: 'a' | 'ab';";
    let grammar = compile(grammar_text).unwrap();
    let (node, len) = Node::from_grammar(&grammar, b"ab").unwrap();
    assert_eq!(len, 2);
    assert_eq!(node.name, Some(&b"r"[..]));
}

#[test]
fn repetition_needs_one_match() {
    let grammar_text: &[u8] = b"<w>: <letter>+;\n<letter>: [a-z];";
    let grammar = compile(grammar_text).unwrap();

    assert!(Node::from_grammar(&grammar, b"123").is_err());
    assert!(Node::from_grammar(&grammar, b"").is_err());

    let (_, len) = Node::from_grammar(&grammar, b"a1").unwrap();
    assert_eq!(len, 1);
}

#[test]
fn repetition_modes_shape_the_tree() {
    let together = compile(b"<d>: <digit>+;\n<digit>: [0-9];").unwrap();
    let (node, len) = Node::from_grammar(&together, b"123 ").unwrap();
    assert_eq!(len, 3);
    match node.content {
        NodeContent::Cons(children) => {
            assert_eq!(children.len(), 1);
            assert_eq!(children[0].name, None);
            assert_eq!(children[0].content, NodeContent::Literal(b"123"));
        },
        NodeContent::Literal(_) => panic!("expected a wrapped alternative"),
    }

    let separate = compile(b"<d>: <digit>*;\n<digit>: [0-9];").unwrap();
    let (node, len) = Node::from_grammar(&separate, b"123 ").unwrap();
    assert_eq!(len, 3);
    match node.content {
        NodeContent::Cons(children) => {
            assert_eq!(children.len(), 1);
            assert_eq!(children[0].name, Some(&b"digit"[..]));
            match &children[0].content {
                NodeContent::Cons(reps) => {
                    assert_eq!(reps.len(), 3);
                    for rep in reps {
                        assert_eq!(rep.name, Some(&b"digit"[..]));
                    }
                },
                NodeContent::Literal(_) => panic!("expected separate children"),
            }
        },
        NodeContent::Literal(_) => panic!("expected a wrapped alternative"),
    }
}

#[test]
fn repeated_parses_are_identical() {
    let grammar_text: &[u8] = b"<w>: <letter> | <letter> <w>;\n<letter>: 'a' | 'b' | 'c';";
    let grammar = compile(grammar_text).unwrap();
    let first = Node::from_grammar(&grammar, b"cab ").unwrap();
    let second = Node::from_grammar(&grammar, b"cab ").unwrap();
    assert_eq!(first, second);
}

#[test]
fn word_scenario() {
    let grammar_text: &[u8] = b"<word>: <letter> | <letter> <word>;
<letter>: 'a'|'b'|'c'|'d'|'e'|'f'|'g'|'h'|'i'|'j'|'k'|'l'|'m'|'n'|'o'|'p'|'q'|'r'|'s'|'t'|'u'|'v'|'w'|'x'|'y'|'z';";
    let grammar = compile(grammar_text).unwrap();
    let (node, len) = Node::from_grammar(&grammar, b"cat ").unwrap();
    assert_eq!(len, 3);
    assert_eq!(node.name, Some(&b"word"[..]));

    // three nested levels: c, then a, then t
    match node.content {
        NodeContent::Cons(level1) => {
            assert_eq!(level1.len(), 2);
            match &level1[1].content {
                NodeContent::Cons(level2) => {
                    assert_eq!(level2.len(), 2);
                    match &level2[1].content {
                        NodeContent::Cons(level3) => {
                            assert_eq!(level3.len(), 1);
                        },
                        NodeContent::Literal(_) => panic!("expected a third level"),
                    }
                },
                NodeContent::Literal(_) => panic!("expected a second level"),
            }
        },
        NodeContent::Literal(_) => panic!("expected a nested tree"),
    }
}

#[test]
fn failed_match_names_the_rule() {
    let grammar = compile(b"<a>: 'x';").unwrap();
    let err = Node::from_grammar(&grammar, b"yyy").unwrap_err();
    match err {
        ParseError::Expected { parsing, got, .. } => {
            assert_eq!(parsing, b"a");
            assert_eq!(got, b"yyy");
        },
        ParseError::DepthLimit => panic!("expected a match failure"),
    }
}

#[test]
fn unbounded_recursion_hits_the_depth_limit() {
    let grammar = compile(b"<a>: <a>;").unwrap();
    let err = Node::from_grammar(&grammar, b"x").unwrap_err();
    assert_eq!(err, ParseError::DepthLimit);
}

#[test]
fn range_match_decodes_multibyte_characters() {
    let grammar = compile("<a>: [à-é]+;".as_bytes()).unwrap();
    let input = "àé!".as_bytes();
    let (_, len) = Node::from_grammar(&grammar, input).unwrap();
    assert_eq!(len, 4);
}

#[test]
fn partial_match_reports_consumed_bytes() {
    let grammar = compile(b"<a>: 'ab';").unwrap();
    let (_, len) = Node::from_grammar(&grammar, b"abcd").unwrap();
    assert_eq!(len, 2);
}

#[test]
fn render_writes_the_nested_shape() {
    let grammar = compile(b"<pair>: <letter> <letter>;\n<letter>: 'a' | 'b';").unwrap();
    let (tree, _) = Node::from_grammar(&grammar, b"ab").unwrap();
    let rendered = tree.render();
    let expected = "{\"name\": \"pair\", \"content\": [{\"name\": \"letter\", \"content\": [{\"name\": \"a\", \"content\": [\"a\"]}]}, {\"name\": \"letter\", \"content\": [{\"name\": \"b\", \"content\": [\"b\"]}]}]}";
    assert_eq!(String::from_utf8(rendered).unwrap(), expected);
}
