use cdl_maze::parser_gen::cdl as hdr;
use cdl_maze::parser_gen::cdl::entity as ent;
use cdl_maze::parser_gen::cdl::entity::{Child, Entity, EntityBody};
use cdl_maze::parser_gen::cdl::field::{field, Field, Rhs};
use cdl_maze::parser_gen::common::{
    and_then, any_char, either, four, identifier, left, match_literal, one_of, one_or_more, optional, pair, pred,
    quoted_string, right, space0, space1, three, whitespace_char, whitespace_wrap, zero_or_more, AnyChar, Identifier,
    Parser,
};

fn strings(v: &[&str]) -> Vec<String> {
    v.iter().map(|s| s.to_string()).collect()
}

fn header(types: &[&str], refs: &[&str], id: &str) -> hdr::EntityHeader {
    hdr::EntityHeader { entity_type: strings(types), entity_refs: strings(refs), entity_id: id.to_string() }
}

fn wrapped_header(types: &[&str], refs: &[&str], id: &str) -> ent::EntityHeader {
    ent::EntityHeader { entity_type: strings(types), entity_refs: strings(refs), entity_id: id.to_string() }
}

#[test]
fn literal_parser() {
    let parse_joe = match_literal("Hello Joe!");
    assert_eq!(Ok(("", ())), parse_joe.parse("Hello Joe!"));
    assert_eq!(Ok((" Hello Robert!", ())), parse_joe.parse("Hello Joe! Hello Robert!"));
    assert_eq!(Err("Hello Mike!"), parse_joe.parse("Hello Mike!"));
}

#[test]
fn identifier_parser() {
    assert_eq!(Ok(("", "i-am-an-identifier".to_string())), identifier("i-am-an-identifier"));
    assert_eq!(Ok((" entirely an identifier", "not".to_string())), identifier("not entirely an identifier"));
    assert_eq!(Err("!not at all an identifier"), identifier("!not at all an identifier"));
}

#[test]
fn quoted_string_parser() {
    assert_eq!(Ok(("", "Hello Joe!".to_string())), quoted_string().parse("\"Hello Joe!\""));
}

#[test]
fn quoted_string_needs_both_quotes() {
    assert_eq!(Ok((" rest", "ü".to_string())), quoted_string().parse("\"ü\" rest"));
    assert_eq!(Err(""), quoted_string().parse("\"open"));
    assert_eq!(Err("plain"), quoted_string().parse("plain"));
}

#[test]
fn whitespace_parsers() {
    assert_eq!(Ok(("x", vec![' ', '\n', '\t'])), space0().parse(" \n\tx"));
    assert_eq!(Ok(("x", vec![])), space0().parse("x"));
    assert_eq!(Err("x"), space1().parse("x"));
    assert_eq!(Ok(("é", vec![' '])), space1().parse(" é"));
}

#[test]
fn cdl_entity_type_one_type() {
    assert_eq!(Ok(("", "widget".to_string())), hdr::entity_type("widget     "));
}

#[test]
fn cdl_entity_type_two_type() {
    assert_eq!(Ok(("", strings(&["widget", "kpi"]))), hdr::entity_types("widget kpi"));
}

#[test]
fn cdl_match_open_bracket() {
    assert_eq!(Ok(("", ())), hdr::open_bracket("{"));
}

#[test]
fn cdl_err_open_bracket() {
    assert_eq!(Err("<"), hdr::open_bracket("<"));
}

#[test]
fn cdl_match_close_bracket() {
    assert_eq!(Ok(("", ())), hdr::close_bracket("}"));
}

#[test]
fn cdl_match_entity_ref() {
    assert_eq!(Ok(("", "ref".to_string())), hdr::entity_ref("@ref"));
}

#[test]
fn cdl_match_entity_refs() {
    assert_eq!(Ok(("", strings(&["ref", "ref2"]))), hdr::entity_refs("@ref @ref2"));
}

#[test]
fn cdl_match_entity_id() {
    assert_eq!(Ok(("", "id".to_string())), hdr::entity_id("#id"));
}

#[test]
fn cdl_match_entity_header() {
    assert_eq!(
        Ok(("", header(&["widget", "kpi"], &["default"], "id"))),
        hdr::entity_header("widget kpi @default #id {")
    );
    assert_eq!(
        Ok(("", header(&["widget", "kpi"], &["default", "other"], "id"))),
        hdr::entity_header("widget kpi @default @other #id {")
    );
    assert_eq!(Ok(("", header(&["widget", "kpi"], &[], "id"))), hdr::entity_header("widget kpi #id {"));
    assert_eq!(Ok(("", header(&["widget", "kpi"], &[], ""))), hdr::entity_header("widget kpi {"));
    assert_eq!(Ok(("", header(&["widget"], &[], ""))), hdr::entity_header("widget  {"));
}

#[test]
fn cdl_header_failures() {
    assert_eq!(Err("#id"), hdr::entity_types("#id"));
    assert_eq!(Err("!"), hdr::entity_ref("@!"));
    assert_eq!(Ok(("#", "".to_string())), hdr::entity_id("#"));
    assert_eq!(Err("<"), hdr::entity_header("widget <"));
    assert_eq!(Err("{"), hdr::entity_header("{"));
}

#[test]
fn entity_entity_type_one_type() {
    assert_eq!(Ok(("", "widget".to_string())), ent::entity_type("widget     "));
}

#[test]
fn entity_entity_type_two_type() {
    assert_eq!(Ok(("", strings(&["widget", "kpi"]))), ent::entity_types("widget kpi"));
}

#[test]
fn entity_match_open_bracket() {
    assert_eq!(Ok(("", ())), ent::open_bracket("{"));
}

#[test]
fn entity_err_open_bracket() {
    assert_eq!(Err("<"), ent::open_bracket("<"));
}

#[test]
fn entity_match_close_bracket() {
    assert_eq!(Ok(("", ())), ent::close_bracket("}"));
}

#[test]
fn entity_match_entity_ref() {
    assert_eq!(Ok(("", "ref".to_string())), ent::entity_ref("@ref"));
}

#[test]
fn entity_match_entity_refs() {
    assert_eq!(Ok(("", strings(&["ref", "ref2"]))), ent::entity_refs("@ref @ref2"));
}

#[test]
fn entity_match_entity_id() {
    assert_eq!(Ok(("", "id".to_string())), ent::entity_id("#id"));
}

#[test]
fn entity_match_entity_header() {
    assert_eq!(
        Ok(("", wrapped_header(&["widget", "kpi"], &["default"], "id"))),
        ent::entity_header("widget kpi @default #id")
    );
    assert_eq!(
        Ok(("", wrapped_header(&["widget", "kpi"], &["default", "other"], "id"))),
        ent::entity_header("widget kpi @default @other #id")
    );
    assert_eq!(Ok(("", wrapped_header(&["widget", "kpi"], &[], "id"))), ent::entity_header("widget kpi #id"));
    assert_eq!(Ok(("", wrapped_header(&["widget", "kpi"], &[], ""))), ent::entity_header("widget kpi"));
    assert_eq!(Ok(("", wrapped_header(&["widget"], &[], ""))), ent::entity_header("widget "));
}

#[test]
fn match_entity() {
    assert_eq!(
        Ok(("", Entity { header: wrapped_header(&["widget", "kpi"], &["default"], "id") })),
        ent::entity("widget kpi @default #id {}")
    );
    assert_eq!(
        Ok(("", Entity { header: wrapped_header(&["widget", "kpi"], &["default"], "id") })),
        ent::entity("widget kpi @default #id { } ")
    );
}

#[test]
fn match_entity_body() {
    assert_eq!(
        Ok((
            "",
            EntityBody {
                children: vec![
                    Child::Entity(Entity { header: wrapped_header(&["widget", "kpi"], &[], "") }),
                    Child::Entity(Entity { header: wrapped_header(&["widget", "test"], &[], "") }),
                ],
            }
        )),
        ent::entity_body(
            "widget kpi {}\
       widget test {}"
        )
    );
}

#[test]
fn entity_failures_report_where_they_stopped() {
    assert_eq!(Err("<"), ent::entity("widget kpi <"));
    assert_eq!(Err("]"), ent::entity("widget { ]"));
    assert_eq!(Ok(("x", ())), ent::close_bracket("  }  x"));
    assert_eq!(Ok(("1", EntityBody { children: vec![] })), ent::entity_body("1"));
    assert_eq!(Ok(("!", "".to_string())), ent::entity_identifier("!"));
}

#[test]
fn match_field() {
    assert_eq!(
        Ok(("", Field { name: "name".to_string(), rhs: Rhs::Identifier("value".to_string()) })),
        field("name : value")
    );
}

#[test]
fn field_failures() {
    assert_eq!(Err("= v"), field("name = v"));
    assert_eq!(Err("1"), field("name: 1"));
    assert_eq!(Err(":v"), field(":v"));
}

#[test]
fn pair_combinator() {
    let tag_opener = pair(match_literal("<"), Identifier);
    assert_eq!(Ok(("/>", ((), "my-first-element".to_string()))), tag_opener.parse("<my-first-element/>"));
    assert_eq!(Err("oops"), tag_opener.parse("oops"));
    assert_eq!(Err("!oops"), tag_opener.parse("<!oops"));
}

#[test]
fn three_combinator() {
    let tag_opener = three(match_literal("<"), Identifier, match_literal(">"));
    assert_eq!(Ok(("", ((), "my-first-element".to_string(), ()))), tag_opener.parse("<my-first-element>"));
    assert_eq!(Err("oops"), tag_opener.parse("oops"));
    assert_eq!(Err(""), tag_opener.parse("<oops"));
}

#[test]
fn four_combinator() {
    let tag_opener = four(match_literal("<"), Identifier, match_literal("|"), match_literal(">"));
    assert_eq!(Ok(("", ((), "my-first-element".to_string(), (), ()))), tag_opener.parse("<my-first-element|>"));
    assert_eq!(Err("oops"), tag_opener.parse("oops"));
    assert_eq!(Err(""), tag_opener.parse("<oops"));
}

#[test]
fn right_combinator() {
    let tag_opener = right(match_literal("<"), Identifier);
    assert_eq!(Ok(("/>", "my-first-element".to_string())), tag_opener.parse("<my-first-element/>"));
    assert_eq!(Err("oops"), tag_opener.parse("oops"));
    assert_eq!(Err("!oops"), tag_opener.parse("<!oops"));
}

#[test]
fn one_or_more_combinator() {
    let parser = one_or_more(match_literal("ha"));
    assert_eq!(Ok(("", vec![(), (), ()])), parser.parse("hahaha"));
    assert_eq!(Err("ahah"), parser.parse("ahah"));
    assert_eq!(Err(""), parser.parse(""));
}

#[test]
fn zero_or_more_combinator() {
    let parser = zero_or_more(match_literal("ha"));
    assert_eq!(Ok(("", vec![(), (), ()])), parser.parse("hahaha"));
    assert_eq!(Ok(("ahah", vec![])), parser.parse("ahah"));
    assert_eq!(Ok(("", vec![])), parser.parse(""));
}

#[test]
fn predicate_combinator() {
    let parser = pred(AnyChar, |c: &char| *c == 'o');
    assert_eq!(Ok(("mg", 'o')), parser.parse("omg"));
    assert_eq!(Err("lol"), parser.parse("lol"));
}

#[test]
fn optional_parser() {
    let optional_parser = optional(Identifier, "default".to_string());
    assert_eq!(Ok(("", "ident".to_string())), optional_parser.parse("ident"));
    assert_eq!(Ok(("1234", "default".to_string())), optional_parser.parse("1234"));
}

#[test]
fn one_of_parser() {
    let one_of_parser = one_of(vec![match_literal("a"), match_literal("b"), match_literal("c"), match_literal("d")]);
    assert_eq!(Ok(("", ())), one_of_parser.parse("a"));
    assert_eq!(Ok(("", ())), one_of_parser.parse("b"));
    assert_eq!(Ok(("", ())), one_of_parser.parse("c"));
    assert_eq!(Ok(("", ())), one_of_parser.parse("d"));
    assert_eq!(Err("e"), one_of_parser.parse("e"));
}

#[test]
fn left_keeps_the_first_value() {
    let parser = left(Identifier, match_literal(";"));
    assert_eq!(Ok((" x", "abc".to_string())), parser.parse("abc; x"));
    assert_eq!(Err(" x"), parser.parse("abc x"));
}

#[test]
fn either_tries_the_second_on_the_input() {
    let parser = either(match_literal("a"), match_literal("b"));
    assert_eq!(Ok(("c", ())), parser.parse("bc"));
    assert_eq!(Err("c"), parser.parse("c"));
}

#[test]
fn map_and_then_pass_values_on() {
    let upper = cdl_maze::parser_gen::common::map(Identifier, |s: String| s.to_uppercase());
    assert_eq!(Ok(("!", "ABC".to_string())), upper.parse("abc!"));
    assert_eq!(Err("1"), upper.parse("1"));
    let twice = and_then(AnyChar, |c: char| match_literal(if c == 'a' { "a" } else { "b" }));
    assert_eq!(Ok(("x", ())), twice.parse("aax"));
    assert_eq!(Err("ax"), twice.parse("bax"));
}

#[test]
fn single_characters_and_wrapped_parsers() {
    assert_eq!(Ok(("é", 'ü')), any_char("üé"));
    assert_eq!(Err(""), any_char(""));
    assert_eq!(Ok(("x", '\t')), whitespace_char().parse("\tx"));
    assert_eq!(Err("x"), whitespace_char().parse("x"));
    let wrapped = whitespace_wrap(Identifier);
    assert_eq!(Ok(("!", "abc".to_string())), wrapped.parse("  abc \n!"));
    assert_eq!(Err("!"), wrapped.parse("  !"));
}

#[test]
fn parser_methods_build_combinators() {
    let not_quote = AnyChar.pred(|c: &char| *c != '"');
    assert_eq!(Ok(("b", 'a')), not_quote.parse("ab"));
    assert_eq!(Err("\"a"), not_quote.parse("\"a"));
    let len = Identifier.map(|s: String| s.len());
    assert_eq!(Ok((" x", 3)), len.parse("abc x"));
    let next = AnyChar.and_then(|c: char| match_literal(if c == 'x' { "y" } else { "z" }));
    assert_eq!(Ok(("", ())), next.parse("xy"));
    assert_eq!(Err("y"), next.parse("ay"));
}
