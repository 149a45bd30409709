use inspi::bnf;
use inspi::spec_parser::is_primitive::all_true;
use inspi::spec_parser::rule_series::RuleSeries;
use inspi::spec_parser::strings::trim_start;
use inspi::strings::trim_end;
use inspi::utils::match_start;
use inspi::utils::take_n;

#[test]
fn take_n_previews_the_front() {
    assert_eq!(take_n(b"abcdefgh", 2), b"abc");
    assert_eq!(take_n(b"ab", 20), b"ab");
    assert_eq!(take_n(b"", 20), b"");
}

#[test]
fn match_start_needs_the_whole_matcher() {
    assert_eq!(match_start(b"hamburger", b"ham"), Some(&b"ham"[..]));
    assert_eq!(match_start(b"ha", b"ham"), None);
    assert_eq!(match_start(b"burger", b"ham"), None);
}

#[test]
fn trim_helpers_cut_at_the_seams() {
    assert_eq!(trim_end(b"hamburger", b"burger"), b"ham");
    assert_eq!(trim_start(b"hamburger", b"ham"), Some(&b"burger"[..]));
    assert_eq!(trim_start(b"hamburger", b"bur"), None);
}

#[test]
fn bnf_lexers_read_their_tokens() {
    assert_eq!(bnf::name(b"<rule> rest"), Some(&b"<rule>"[..]));
    assert_eq!(bnf::name(b"rule"), None);
    assert_eq!(bnf::comment(b"; a note\nmore"), Some(&b"; a note"[..]));
    assert_eq!(bnf::space(b"  \t x"), Some(&b"  \t "[..]));
    assert_eq!(bnf::assign(b"-> x"), Some(&b"->"[..]));
    assert_eq!(bnf::double_quoted(b"\"ciao\" rest"), Some(&b"\"ciao\""[..]));
    assert_eq!(bnf::single_quoted(b"'ciao' rest"), Some(&b"'ciao'"[..]));
    assert_eq!(bnf::rule_piece(b"'ciao' <x>"), Some(&b"'ciao'"[..]));
    assert_eq!(bnf::rule_piece(b"<x> 'ciao'"), Some(&b"<x>"[..]));
    assert_eq!(bnf::skip_n(b"hamburger", 3), b"burger");
    assert_eq!(bnf::skip(b"ababX", b"ab"), Some(&b"X"[..]));
    assert_eq!(bnf::skip(b"baX", b"ab"), None);
}

#[test]
fn bnf_parse_and_skip_pairs_parse_with_skip() {
    let (parsed, rest) = bnf::parse_and_skip(b"'a' x", bnf::single_quoted).unwrap();
    assert_eq!(parsed, b"'a'");
    assert_eq!(rest, b" x");
}

#[test]
fn series_with_a_literal_counts_as_primitive() {
    let (with_literal, _) = RuleSeries::parse_len(b"<x> 'lit'").unwrap();
    assert!(with_literal.is_primitive());

    let (only_idents, _) = RuleSeries::parse_len(b"<x> <y>").unwrap();
    assert!(!only_idents.is_primitive());
}

#[test]
fn all_true_finds_an_accepted_element() {
    let items = [1u8, 4, 7];
    assert!(all_true(&items, |x: &u8| *x == 4));
    assert!(!all_true(&items, |x: &u8| *x == 9));
}
