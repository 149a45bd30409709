use inspi::bnf;
use inspi::nodes::Primitive;
use inspi::nodes::RuleSpec;
use inspi::spec_parser::char_range::CharRange;
use inspi::spec_parser::grammar::Grammar;
use inspi::spec_parser::rule_line::RuleLine;
use inspi::spec_parser::rule_ors::RuleOrs;
use inspi::spec_parser::rule_piece::Repetition;
use inspi::spec_parser::rule_piece::RulePiece;
use inspi::spec_parser::rule_piece::RulePieceContent;
use inspi::spec_parser::rule_series::RuleSeries;
use inspi::spec_parser::tokens::DoubleQuote;
use inspi::spec_parser::tokens::Identifier;
use inspi::spec_parser::tokens::SingleQuote;
use inspi::spec_parser::tokens::Space;

#[test]
fn quotes_and_separator() {
    let mut input: &[u8] = b"'burger' | \"ciao\"";
    let expected = [
        Primitive::SingleQuote(inspi::nodes::SingleQuote(b"'burger'")),
        Primitive::Space(inspi::nodes::Space(b" ")),
        Primitive::Separator(inspi::nodes::Separator(b"|")),
        Primitive::Space(inspi::nodes::Space(b" ")),
        Primitive::DoubleQuote(inspi::nodes::DoubleQuote(b"\"ciao\"")),
    ];

    for exp in expected {
        let got = Primitive::parse(input).unwrap();
        assert_eq!(exp, got);

        input = bnf::skip(input, got.as_str()).unwrap();
    }

    assert_eq!(input.len(), 0);
}

#[test]
fn quotes_and_spaces() {
    let input: &[u8] = b"'hamburger'  \t \"double quotes\" 'single_quotes'";

    let single = inspi::nodes::SingleQuote::parse(input).unwrap();
    assert_eq!(single, inspi::nodes::SingleQuote(b"'hamburger'"));
    let input = single.skip_source(input).unwrap();

    let space = inspi::nodes::Space::parse(input).unwrap();
    assert_eq!(space, inspi::nodes::Space(b"  \t "));
    let input = space.skip_source(input).unwrap();

    let double = inspi::nodes::DoubleQuote::parse(input).unwrap();
    assert_eq!(double, inspi::nodes::DoubleQuote(b"\"double quotes\""));
    let input = double.skip_source(input).unwrap();

    let space = inspi::nodes::Space::parse(input).unwrap();
    assert_eq!(space, inspi::nodes::Space(b" "));
    let input = space.skip_source(input).unwrap();

    let single = inspi::nodes::SingleQuote::parse(input).unwrap();
    assert_eq!(single, inspi::nodes::SingleQuote(b"'single_quotes'"));

    assert_eq!(single.skip_source(input).unwrap().len(), 0);
}

#[test]
fn rule_spec() {
    let input: &[u8] = b"<identifier> | 'burger' | <johnny> 'burger'";
    let piece = RuleSpec::parse(input).unwrap();

    assert_eq!(
        piece.0[0],
        inspi::nodes::RulePiece::Identifier(inspi::nodes::Identifier(b"<identifier>"))
    );
    assert_eq!(
        piece.0[1],
        inspi::nodes::RulePiece::SingleQuote(inspi::nodes::SingleQuote(b"'burger'"))
    );
}

#[test]
fn parse_utils_surrounded() {
    let input: &[u8] = b" <identifier> 'john'";
    let expected_parsed = Identifier(b"<identifier>");
    let expected_left: &[u8] = b"'john'";

    let input = match Space::parse_and_skip(input) {
        Some((_, rest)) => rest,
        None => input,
    };
    let (ident, left) = Identifier::parse_and_skip(input).unwrap();
    let left = match Space::parse_and_skip(left) {
        Some((_, rest)) => rest,
        None => left,
    };
    assert_eq!(ident, expected_parsed);
    assert_eq!(left, expected_left);
}

#[test]
fn take_start() {
    let input: &[u8] = b"!= burger";
    let expected: &[u8] = b"!=";
    let func = |c: u8| c == b'!' || c == b'=' || c == b')';

    let got = bnf::start_match(input, func).unwrap();
    assert_eq!(got, expected);
}

#[test]
fn single_quote() {
    let input: &[u8] = b"'hamburger mobile'";
    let (took, _) = SingleQuote::parse_len(input).unwrap();

    assert_eq!(took, SingleQuote(b"'hamburger mobile'"));
}

#[test]
fn identifier() {
    let input: &[u8] = b"<johnny_boy>";
    let (took, _) = Identifier::parse_len(input).unwrap();

    assert_eq!(took, Identifier(b"<johnny_boy>"));
}

#[test]
fn parse() {
    let input: &[u8] = b"[a-z][A-Z]";
    let expected_first = CharRange { from: 'a', to: 'z' };
    let expected_second = CharRange { from: 'A', to: 'Z' };

    let (first, left) = CharRange::parse_and_skip(input).unwrap();
    assert_eq!(expected_first, first);

    let (second, _) = CharRange::parse_and_skip(left).unwrap();
    assert_eq!(expected_second, second);
}

#[test]
fn repetition() {
    let cases = [
        (
            &b"' '+"[..],
            RulePiece {
                content: RulePieceContent::Single(SingleQuote(b"' '")),
                repetition: Repetition::RepeatTogether,
            },
        ),
        (
            &b"<key_pair>*"[..],
            RulePiece {
                content: RulePieceContent::Ident(Identifier(b"<key_pair>")),
                repetition: Repetition::RepeatSeparate,
            },
        ),
        (
            &b"\"burger\""[..],
            RulePiece {
                content: RulePieceContent::Double(DoubleQuote(b"\"burger\"")),
                repetition: Repetition::Single,
            },
        ),
    ];

    for (input, expected) in cases {
        let (got, _) = RulePiece::parse_len(input).unwrap();
        assert_eq!(expected, got);
    }
}

#[test]
fn rule_series_rule_series() {
    let input: &[u8] = b"'hamburger' <hamburger> \"automobile\" [a-z] <johnny_moment>";
    let expected = RuleSeries(vec![
        RulePieceContent::from(SingleQuote(b"'hamburger'")).into(),
        RulePieceContent::from(Identifier(b"<hamburger>")).into(),
        RulePieceContent::from(DoubleQuote(b"\"automobile\"")).into(),
        RulePieceContent::from(CharRange { from: 'a', to: 'z' }).into(),
        RulePieceContent::from(Identifier(b"<johnny_moment>")).into(),
    ]);

    let (got, _) = RuleSeries::parse_len(input).unwrap();
    assert_eq!(expected, got);
}

#[test]
fn rule_ors_rule_ors() {
    let input: &[u8] =
        b"<hamburger_mobile> <space> <jimmy> | \"mamma mia\" '\"' \"burger\" <moment> | \"hi\"";
    let expected = RuleOrs(vec![
        RuleSeries(vec![
            RulePieceContent::from(Identifier(b"<hamburger_mobile>")).into(),
            RulePieceContent::from(Identifier(b"<space>")).into(),
            RulePieceContent::from(Identifier(b"<jimmy>")).into(),
        ]),
        RuleSeries(vec![
            RulePieceContent::from(DoubleQuote(b"\"mamma mia\"")).into(),
            RulePieceContent::from(SingleQuote(b"'\"'")).into(),
            RulePieceContent::from(DoubleQuote(b"\"burger\"")).into(),
            RulePieceContent::from(Identifier(b"<moment>")).into(),
        ]),
        RuleSeries(vec![RulePieceContent::from(DoubleQuote(b"\"hi\"")).into()]),
    ]);

    let (got, _) = RuleOrs::parse_len(input).unwrap();
    assert_eq!(expected, got);
}

#[test]
fn rule_line() {
    let input: &[u8] = b"<my_rule>: <letter> | <letter> <my_rule> ;";
    let expected = RuleLine {
        name: b"my_rule",
        rules: RuleOrs(vec![
            RuleSeries(vec![RulePieceContent::from(Identifier(b"<letter>")).into()]),
            RuleSeries(vec![
                RulePieceContent::from(Identifier(b"<letter>")).into(),
                RulePieceContent::from(Identifier(b"<my_rule>")).into(),
            ]),
        ]),
    };

    let (got, _) = RuleLine::parse_len(input).unwrap();
    assert_eq!(expected, got);
}

#[test]
fn grammar_keeps_first_rule_as_main() {
    let input: &[u8] = b"<a>: 'x';\n<b>: 'y';";
    let (grammar, _) = Grammar::parse_len(input).unwrap();
    assert_eq!(grammar.main, b"a");
    assert_eq!(grammar.rules.len(), 2);
    assert!(grammar.get_rule(b"b").is_some());
    assert!(grammar.get_rule(b"c").is_none());
}

#[test]
fn char_range_multibyte_bounds() {
    let input = "[à-é]".as_bytes();
    let (range, len) = CharRange::parse_len(input).unwrap();
    assert_eq!(range, CharRange { from: 'à', to: 'é' });
    assert_eq!(len, input.len());
}

#[test]
fn grammar_rejects_missing_semicolon() {
    let input: &[u8] = b"<a>: 'x'";
    assert!(Grammar::parse_len(input).is_err());
}
