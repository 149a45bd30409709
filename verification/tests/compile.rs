use inspi::rules::from_spec::CompileError;
use inspi::rules::grammar::Grammar;
use inspi::rules::literal::LiteralContent;
use inspi::rules::rule::Rule;
use inspi::rules::rule::RuleList;
use inspi::rules::rule::RuleOrs;
use inspi::rules::rule::RulePiece;
use inspi::rules::rule::RulePieceContent;
use inspi::spec_parser::grammar::Grammar as SpecGrammar;
use inspi::spec_parser::rule_piece::Repetition;
use inspi::spec_parser::rule_piece::RulePiece as SpecRulePiece;
use inspi::spec_parser::rule_piece::RulePieceContent as SpecRulePieceContent;
use inspi::spec_parser::rule_series::RuleSeries as SpecRuleSeries;
use inspi::spec_parser::tokens::DoubleQuote;
use inspi::spec_parser::tokens::Identifier;
use inspi::spec_parser::tokens::SingleQuote;
use inspi::structures::id::Id;

#[test]
fn it_works() {
    let keys_to_try: [(&[u8], usize); 10] = [
        (b"ciao", 0),
        (b"giovanni", 1),
        (b"ciao", 0),
        (b"giovanni", 1),
        (b"giovanni", 1),
        (b"ciao", 0),
        (b"ciao", 0),
        (b"lalo", 2),
        (b"ciao", 0),
        (b"ciao", 0),
    ];

    let mut gen = Id::default();

    for (name, id) in keys_to_try {
        assert_eq!(gen.get(name).0, id);
    }
}

#[test]
fn from_raw_spec() {
    let input = b"<sentence>: <subject> <space>+ \"li\" <space>+ <predicate>;
<subject>: <noun_phrase>;
<noun_phrase>: <word> | <word> <space>+ <noun_phrase>;
<object>: <noun_phrase>;
<space>: ' ';
<word>: 'mi' | 'sina' | 'lape' | 'pona' | 'mute';
<predicate>: <noun_phrase>;";

    let expected_sentence = Rule {
        name: b"sentence",
        rule: RuleOrs(vec![RuleList(vec![
            RulePiece {
                content: RulePieceContent::Rule(1),
                repetition: Repetition::Single,
            },
            RulePiece {
                content: RulePieceContent::Rule(2),
                repetition: Repetition::RepeatTogether,
            },
            RulePiece {
                content: RulePieceContent::Literal(LiteralContent::Str(b"li").into()),
                repetition: Repetition::Single,
            },
            RulePiece {
                content: RulePieceContent::Rule(2),
                repetition: Repetition::RepeatTogether,
            },
            RulePiece {
                content: RulePieceContent::Rule(3),
                repetition: Repetition::Single,
            },
        ])]),
    };

    let (spec_grammar, _) = SpecGrammar::parse_len(input).unwrap();
    let grammar = Grammar::try_from(&spec_grammar).unwrap();
    let sentence_gotten = grammar.get(0).unwrap();

    assert_eq!(&expected_sentence, sentence_gotten);
}

#[test]
fn from_rule_piece() {
    let mut id_gen = Id::default();
    let cases: [(SpecRulePiece, RulePieceContent); 4] = [
        (
            SpecRulePieceContent::from(Identifier(b"<automobile>")).into(),
            RulePieceContent::Rule(0),
        ),
        (
            SpecRulePieceContent::from(SingleQuote(b"'burger mobile'")).into(),
            RulePieceContent::Literal((&b"burger mobile"[..]).into()),
        ),
        (
            SpecRulePieceContent::from(Identifier(b"<johnny>")).into(),
            RulePieceContent::Rule(1),
        ),
        (
            SpecRulePieceContent::from(Identifier(b"<automobile>")).into(),
            RulePieceContent::Rule(0),
        ),
    ];

    for (input, expected) in cases {
        let got = RulePiece::from_spec(&input, &mut id_gen).content;

        assert_eq!(expected, got);
    }
}

#[test]
fn from_rule_series() {
    let mut id_gen = Id::default();
    let input = SpecRuleSeries(vec![
        SpecRulePieceContent::from(SingleQuote(b"'the'")).into(),
        SpecRulePieceContent::from(Identifier(b"<space>")).into(),
        SpecRulePieceContent::from(DoubleQuote(b"\"noun\"")).into(),
        SpecRulePieceContent::from(Identifier(b"<space>")).into(),
        SpecRulePieceContent::from(DoubleQuote(b"\"was my friend\"")).into(),
        SpecRulePieceContent::from(Identifier(b"<space>")).into(),
        SpecRulePieceContent::from(Identifier(b"<period>")).into(),
    ]);

    let expected = RuleList(vec![
        RulePieceContent::from(&b"the"[..]).into(),
        RulePieceContent::Rule(0).into(),
        RulePieceContent::from(&b"noun"[..]).into(),
        RulePieceContent::Rule(0).into(),
        RulePieceContent::from(&b"was my friend"[..]).into(),
        RulePieceContent::Rule(0).into(),
        RulePieceContent::Rule(1).into(),
    ]);

    let got = RuleList::from_spec(&input, &mut id_gen);

    assert_eq!(expected, got);
}

#[test]
fn unknown_rule_is_reported_by_name() {
    let input: &[u8] = b"<a>: <missing>;";
    let (spec, _) = SpecGrammar::parse_len(input).unwrap();
    let err = Grammar::try_from(&spec).unwrap_err();
    assert_eq!(err, CompileError::UnknownRule(b"missing"));
}

#[test]
fn unreachable_rules_are_dropped() {
    let input: &[u8] = b"<a>: 'x' <b>;\n<b>: 'y';\n<lost>: 'z';";
    let (spec, _) = SpecGrammar::parse_len(input).unwrap();
    let grammar = Grammar::try_from(&spec).unwrap();
    assert_eq!(grammar.rules.len(), 2);
    assert_eq!(grammar.get(0).unwrap().name, b"a");
    assert_eq!(grammar.get(1).unwrap().name, b"b");
    assert!(grammar.get(2).is_none());
}

#[test]
fn unreachable_broken_reference_is_ignored() {
    let input: &[u8] = b"<a>: 'x';\n<lost>: <missing>;";
    let (spec, _) = SpecGrammar::parse_len(input).unwrap();
    let grammar = Grammar::try_from(&spec).unwrap();
    assert_eq!(grammar.rules.len(), 1);
}

#[test]
fn self_reference_compiles() {
    let input: &[u8] = b"<list>: 'x' | 'x' <list>;";
    let (spec, _) = SpecGrammar::parse_len(input).unwrap();
    let grammar = Grammar::try_from(&spec).unwrap();
    assert_eq!(grammar.rules.len(), 1);
    let rule = grammar.get(0).unwrap();
    assert_eq!(rule.rule.0[1].0[1].content, RulePieceContent::Rule(0));
}
