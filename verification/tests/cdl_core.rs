use cdl_maze::cdl_core::ast::ParseResult;
use cdl_maze::cdl_core::ast::{
    AstEntityNode, AstFieldNode, AstNumberNode, AstOperatorNode, AstRootNode, AstUnaryOperatorNode, Expr,
};
use cdl_maze::cdl_core::lex::debug_token;
use cdl_maze::cdl_core::lex::LexItem;
use cdl_maze::cdl_core::parse::Parser;
use cdl_maze::cdl_core::print::print;
use cdl_maze::cdl_core::select::{select_entity, select_field};
use cdl_maze::cdl_core::select_lex::lex_selector;
use cdl_maze::cdl_core::select_parse::SelectorParser;

/// Splits CDL text into the tokens the parser reads: identifiers (an entity
/// id written `#id` is the identifier `id`), references `@name`, numbers with
/// their text, quoted strings, punctuation, and one end-of-line per newline.
fn tokens(s: &str) -> Vec<LexItem> {
    let chars: Vec<char> = s.chars().collect();
    let mut out = Vec::new();
    let mut i = 0;
    while i < chars.len() {
        let c = chars[i];
        let word = |from: usize| {
            let mut j = from;
            while j < chars.len() && (chars[j].is_alphanumeric() || chars[j] == '_') {
                j += 1;
            }
            (chars[from..j].iter().collect::<String>(), j)
        };
        if c == '\n' {
            out.push(LexItem::EOL);
            i += 1;
        } else if c.is_whitespace() {
            i += 1;
        } else if c.is_alphabetic() {
            let (w, j) = word(i);
            out.push(LexItem::Identifier(w));
            i = j;
        } else if c == '#' {
            let (w, j) = word(i + 1);
            out.push(LexItem::Identifier(w));
            i = j;
        } else if c == '@' {
            let (w, j) = word(i + 1);
            out.push(LexItem::Reference(w));
            i = j;
        } else if c.is_ascii_digit() {
            let mut j = i;
            while j < chars.len() && (chars[j].is_ascii_digit() || chars[j] == '.') {
                j += 1;
            }
            out.push(LexItem::Number { real_text: chars[i..j].iter().collect() });
            i = j;
        } else if c == '"' {
            let mut j = i + 1;
            while chars[j] != '"' {
                j += 1;
            }
            out.push(LexItem::String(chars[i + 1..j].iter().collect()));
            i = j + 1;
        } else {
            out.push(match c {
                '{' => LexItem::OpenBracket,
                '}' => LexItem::CloseBracket,
                ':' => LexItem::Colon,
                ',' => LexItem::Comma,
                '(' => LexItem::OpenPar,
                ')' => LexItem::ClosePar,
                '+' => LexItem::Plus,
                '-' => LexItem::Minus,
                '*' => LexItem::Mul,
                '/' => LexItem::Div,
                _ => panic!("no token for {:?}", c),
            });
            i += 1;
        }
    }
    out
}

fn parse_cdl(cdl: &str) -> ParseResult {
    let mut parser = Parser::new(tokens(cdl));
    parser.parse().unwrap()
}

const EXPR_CDL: &str = "widget kpi   {
    expr1: 1 + 1
    expr1: 1 * 1
    expr1: 1 * -1
    expr1: 1 - 1
    expr1: 1 + 1 + 1 + 1
    expr1: 1 + (1 + 1) + 1
    expr1: s1
    expr1: s1:q1
    expr1: NPS(s1:q1)
    expr1: NPS(s1:q1, MAX(1 , 2 ,3))
}
";

const PAGES: &str = "
page {

    widget kpi {
        label : \"Label\"
        labels : \"Labels\"
    }
}

page {

    widget kpi {
        label : \"Label\"
        labels : \"Labels\"
    }
    widget kpi2 {
        label : \"Label\"
        labels : \"Labels\"
    }
    widget kpi3 #kpiid {
        label : \"Label\"
        labels : \"Labels\"
    }
}
";

#[test]
fn lex_selector_test() {
    let s = "main[subType].identifier";
    let selector = lex_selector(s);
    assert_eq!(selector.len(), 6);
}

#[test]
fn lex_selector_test2() {
    let s = "main[subType].identifier > main";
    let selector = lex_selector(s);
    assert_eq!(selector.len(), 8);
}

#[test]
fn parse_test() {
    let s = "main[subType].identifier";
    let tokens = lex_selector(s);
    let mut parser = SelectorParser::new(tokens);
    let sel = parser.parse().unwrap();
    assert_eq!(sel.main_type.unwrap(), "main");
    assert_eq!(sel.sub_type.unwrap(), "subType");
    assert_eq!(sel.identifier.unwrap(), "identifier");
}

#[test]
fn parse_test_just_main() {
    let s = "main";
    let tokens = lex_selector(s);
    let mut parser = SelectorParser::new(tokens);
    let sel = parser.parse().unwrap();
    assert_eq!(sel.main_type.unwrap(), "main");
    assert_eq!(sel.sub_type.is_none(), true);
    assert_eq!(sel.identifier.is_none(), true);
}

#[test]
fn parse_test_just_sub_type() {
    let s = "[subtype]";
    let tokens = lex_selector(s);
    let mut parser = SelectorParser::new(tokens);
    let sel = parser.parse().unwrap();
    assert_eq!(sel.main_type.is_none(), true);
    assert_eq!(sel.sub_type.unwrap(), "subtype");
    assert_eq!(sel.identifier.is_none(), true);
}

#[test]
fn parse_test_just_identifier() {
    let s = ".identifier";
    let tokens = lex_selector(s);
    let mut parser = SelectorParser::new(tokens);
    let sel = parser.parse().unwrap();
    assert_eq!(sel.main_type.is_none(), true);
    assert_eq!(sel.sub_type.is_none(), true);
    assert_eq!(sel.identifier.unwrap(), "identifier");
}

#[test]
fn parse_test_sub_and_identifier() {
    let s = "[sub].identifier";
    let tokens = lex_selector(s);
    let mut parser = SelectorParser::new(tokens);
    let sel = parser.parse().unwrap();
    assert_eq!(sel.main_type.is_none(), true);
    assert_eq!(sel.sub_type.unwrap(), "sub");
    assert_eq!(sel.identifier.unwrap(), "identifier");
}

#[test]
fn parse_test_main_and_identifier() {
    let s = "main.identifier";
    let tokens = lex_selector(s);
    let mut parser = SelectorParser::new(tokens);
    let sel = parser.parse().unwrap();
    assert_eq!(sel.main_type.unwrap(), "main");
    assert_eq!(sel.sub_type.is_none(), true);
    assert_eq!(sel.identifier.unwrap(), "identifier");
}

#[test]
fn parse_sub_selectors() {
    let s = "main[kpi] > [kpi].label";
    let tokens = lex_selector(s);
    let mut parser = SelectorParser::new(tokens);
    let sel = parser.parse().unwrap();
    assert_eq!(sel.main_type.unwrap(), "main");
    assert_eq!(sel.sub_type.unwrap(), "kpi");
    assert_eq!(sel.identifier.is_none(), true);
    assert_eq!(sel.child.is_some(), true);
    let child = sel.child.unwrap();
    assert_eq!(child.identifier.unwrap(), "label");
}

#[test]
fn selector_parser_moves_past_what_it_read() {
    let tokens = lex_selector("a > b");
    let mut parser = SelectorParser::new(tokens);
    let sel = parser.parse().unwrap();
    assert_eq!(parser.index, 3);
    assert_eq!(sel.main_type.unwrap(), "a");
    assert_eq!(sel.child.unwrap().main_type.unwrap(), "b");
}

#[test]
fn parse_entity() {
    let pr = parse_cdl(
        "widget kpi {
    expr : 1 + 2
    id : identifier
    label : \"Label\"
    number: 1234
}
",
    );
    assert_eq!(pr.fields.len(), 4);
    assert_eq!(pr.entities.len(), 1);
    assert_eq!(pr.expressions.len(), 6);
}

#[test]
fn parse_2_entity() {
    let pr = parse_cdl(
        "
    widget kpi {
        label : \"Label\"
        labels : \"Labels\"
    }

    widget kpi {
        label : \"Label\"
        labels : \"Labels\"
    }
    ",
    );
    assert_eq!(pr.entities.len(), 2);
    assert_eq!(pr.entities[0].fields.len(), 2);
    assert_eq!(pr.entities[1].fields.len(), 2);
}

#[test]
fn parse_script_from_js() {
    let pr = parse_cdl(
        "
         datatable kpi data1 {
            type : nps
            vpath : t1:q1
          }

          page #overview {
            widget kpi kpi1{
              type : nps
              vpath : t1:q1
              label : \"KPI\"
            }
            widget kpi kpi2{
              type : nps
              vpath : t1:q1
              label : \"KPI\"
            }

            widget account {
              type : nps
              vpath : t1:q1
              label : \"KPI\"
            }
          }
      ",
    );
    assert_eq!(pr.entities.len(), 5);
    assert_eq!(pr.entities[0].fields.len(), 2);
    assert_eq!(pr.entities[4].children.len(), 3);
}

#[test]
fn entity_with_no_subtype() {
    let pr = parse_cdl(
        "
      widget   {
          label : \"Label\"
          labels : \"Labels\"
      }
      ",
    );
    assert_eq!(pr.entities.len(), 1);
    assert_eq!(pr.entities[0].fields.len(), 2);
    assert_eq!(pr.entities[0].sub_type, None);
}

#[test]
fn entity_with_entity_inside_entity() {
    let pr = parse_cdl(
        "
      widget kpi  {
          label : \"Label\"

          tile kpi {
             type : \"type\"
          }
      }
      ",
    );
    assert_eq!(pr.entities.len(), 2);
    assert_eq!(pr.entities[0].fields.len(), 1);
    assert_eq!(pr.entities[0].children.len(), 0);
    assert_eq!(pr.entities[1].fields.len(), 1);
    assert_eq!(pr.entities[1].children.len(), 1);
}

#[test]
fn parse_entity_with_id() {
    let pr = parse_cdl(
        " widget kpi #id {
          label : \"Label\"
          labels : \"Labels\"
      }
      ",
    );
    assert_eq!(pr.entities.len(), 1);
    assert_eq!(pr.entities[0].identifier, Some("id".to_string()));
    assert_eq!(pr.entities[0].fields.len(), 2);
}

#[test]
fn parse_entity_with_reference() {
    let pr = parse_cdl(
        "widget kpi  #id @default {
          label : \"Label\"
          labels : \"Labels\"
      }
      ",
    );
    assert_eq!(pr.entities.len(), 1);
    assert_eq!(pr.entities[0].identifier, Some("id".to_string()));
    assert_eq!(pr.entities[0].reference, Some("default".to_string()));
    assert_eq!(pr.entities[0].fields.len(), 2);
}

#[test]
fn parse_entity_with_expr() {
    let pr = parse_cdl(EXPR_CDL);
    assert_eq!(pr.entities.len(), 1);
    assert_eq!(pr.entities[0].fields.len(), 10);
}

#[test]
fn parse_reports_a_stray_top_level_token() {
    let mut parser = Parser::new(vec![LexItem::Colon]);
    let res = parser.parse();
    assert_eq!(res.is_err(), true);
    assert_eq!(res.unwrap_err(), "Error when parsing top level, found Colon");
    let mut parser = Parser::new(vec![LexItem::Number { real_text: "1.5".to_string() }]);
    assert_eq!(
        parser.parse().unwrap_err(),
        "Error when parsing top level, found Number { real_text: \"1.5\" }"
    );
}

#[test]
fn parse_reports_a_line_that_is_neither_field_nor_entity() {
    let mut parser = Parser::new(tokens("widget {\n: x\n}\n"));
    assert_eq!(
        parser.parse().unwrap_err(),
        "Trying to parse entity body, and not field or entity found"
    );
}

#[test]
fn print_cdl_expr_cdl() {
    let out = print(parse_cdl(EXPR_CDL));
    let correct = "widget kpi {
    expr1: 1 + 1
    expr1: 1 * 1
    expr1: 1 * -1
    expr1: 1 - 1
    expr1: 1 + 1 + 1 + 1
    expr1: 1 + 1 + 1 + 1
    expr1: s1
    expr1: s1:q1
    expr1: NPS(s1:q1)
    expr1: NPS(s1:q1, MAX(1, 2, 3))
}
"
    .to_string();
    assert_eq!(out, correct);
}

#[test]
fn print_cdl() {
    let cdl = "widget kpi #id @default {
    label : \"Label\"
    id : identifier
    number : 1234.001000
    tile kpi {
        type : \"type\"
    }
}
";
    let out = print(parse_cdl(cdl));
    let correct = "widget kpi #id @default {
    label: \"Label\"
    id: identifier
    number: 1234.001000
    tile kpi {
        type: \"type\"
    }
}
"
    .to_string();
    assert_eq!(out, correct);
}

#[test]
fn print_expressions() {
    let cdl = "widget kpi {
    expr : 1 + 1
    expr : 1 * 1
    expr : 1 * -1
}
";
    let out = print(parse_cdl(cdl));
    let correct = "widget kpi {
    expr: 1 + 1
    expr: 1 * 1
    expr: 1 * -1
}
"
    .to_string();
    assert_eq!(out, correct);
}

#[test]
fn print_then_parse_gives_the_same_shape() {
    let cdl = "page #p {\n  widget kpi @r {\n    a : f(1, x:y)\n  }\n}\n";
    let first = parse_cdl(cdl);
    let n_entities = first.entities.len();
    let n_fields = first.fields.len();
    let text = print(first);
    let second = parse_cdl(&text);
    assert_eq!(second.entities.len(), n_entities);
    assert_eq!(second.fields.len(), n_fields);
    assert_eq!(print(second), text);
}

#[test]
fn select_entity_simple() {
    let root = parse_cdl(
        "
widget kpi {
    label : \"Label\"
    labels : \"Labels\"
}

widget kpi2 {
    label : \"Label\"
    labels : \"Labels\"
}
",
    );
    let result = select_entity(&root, "widget[kpi]");
    assert_eq!(result.len(), 1);
}

#[test]
fn select_entity_simple2() {
    let pr = parse_cdl(PAGES);
    assert_eq!(select_entity(&pr, "widget[kpi]").len(), 2);
    assert_eq!(select_entity(&pr, "widget[kpi2]").len(), 1);
    assert_eq!(select_entity(&pr, "widget").len(), 4);
    assert_eq!(select_entity(&pr, "widget.kpiid").len(), 1);
}

#[test]
fn select_nested_entity() {
    let root = parse_cdl(PAGES);
    assert_eq!(select_entity(&root, "page > widget").len(), 4);
    assert_eq!(select_entity(&root, "page > widget[kpi]").len(), 2);
    assert_eq!(select_entity(&root, "page > widget[kpi2]").len(), 1);
}

#[test]
fn select_field_simple() {
    let root = parse_cdl(PAGES);
    assert_eq!(select_field(&root, ".label").len(), 4);
    assert_eq!(select_field(&root, "page > widget[kpi3] > .label").len(), 1);
    assert_eq!(select_field(&root, "widget > .label").len(), 4);
}

#[test]
fn select_gives_the_nodes_themselves() {
    let root = parse_cdl(PAGES);
    let found = select_entity(&root, "widget.kpiid");
    assert_eq!(found[0].sub_type, Some("kpi3".to_string()));
    let fields = select_field(&root, "page > widget[kpi3] > .labels");
    assert_eq!(fields.len(), 1);
    assert_eq!(fields[0].identifier, "labels");
}

#[test]
fn selector_lexing_splits_at_a_separator() {
    let whole = lex_selector("page > widget[kpi]");
    let mut parts = lex_selector("page ");
    parts.extend(lex_selector(">"));
    parts.extend(lex_selector(" widget[kpi]"));
    assert_eq!(whole, parts);
    assert_eq!(lex_selector("a.b").len(), 3);
    assert_eq!(lex_selector("a$b"), {
        let mut v = lex_selector("a");
        v.extend(lex_selector("b"));
        v
    });
}

#[test]
fn token_text_is_the_debug_text() {
    let items = vec![
        LexItem::Identifier("ab\"c\\d".to_string()),
        LexItem::Reference("r\n".to_string()),
        LexItem::String("tab\there".to_string()),
        LexItem::Number { real_text: "1.5".to_string() },
        LexItem::EOL,
        LexItem::OpenBracket,
        LexItem::CloseBracket,
        LexItem::Colon,
        LexItem::Comma,
        LexItem::OpenPar,
        LexItem::ClosePar,
        LexItem::Plus,
        LexItem::Minus,
        LexItem::Mul,
        LexItem::Div,
    ];
    for item in &items {
        assert_eq!(debug_token(item), format!("{:?}", item));
    }
    assert_eq!(debug_token(&LexItem::Identifier("x".to_string())), "Identifier(\"x\")");
}

#[test]
fn print_follows_forward_references() {
    // expression 0 refers to expressions stored after it; entity 0 has
    // entity 1, stored after it, as its child
    let expressions = vec![
        Expr::Operator(Box::new(AstOperatorNode { operator: '+', left_side: 1, right_side: 2 })),
        Expr::Number(Box::new(AstNumberNode { text_rep: "1".to_string() })),
        Expr::UnaryOperator(Box::new(AstUnaryOperatorNode { operator: '-', expr: 3 })),
        Expr::Number(Box::new(AstNumberNode { text_rep: "2".to_string() })),
    ];
    let fields = vec![AstFieldNode { identifier: "v".to_string(), value: 0 }];
    let mut outer = AstEntityNode::new();
    outer.main_type = "page".to_string();
    outer.children = vec![1];
    let mut inner = AstEntityNode::new();
    inner.main_type = "widget".to_string();
    inner.sub_type = Some("kpi".to_string());
    inner.fields = vec![0];
    let pr = ParseResult {
        root: AstRootNode { children: vec![0] },
        entities: vec![outer, inner],
        fields,
        expressions,
    };
    assert_eq!(print(pr), "page {\n    widget kpi {\n        v: 1 + -2\n    }\n}\n");
}

#[test]
fn try_parse_reports_a_read_past_the_last_token() {
    let mut parser = Parser::new(vec![LexItem::Identifier("page".to_string())]);
    assert!(parser.try_parse().is_none());
    let mut parser = Parser::new(tokens("page {\n}\n"));
    let pr = parser.try_parse().unwrap().unwrap();
    assert_eq!(pr.entities.len(), 1);
    let mut parser = Parser::new(vec![LexItem::Plus]);
    assert_eq!(parser.try_parse().unwrap().err().unwrap(), "Error when parsing top level, found Plus");
}
