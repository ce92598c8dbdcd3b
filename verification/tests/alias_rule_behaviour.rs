use juniper::limit_number_of_aliases::{error_message, factory, validate_document};
use juniper::position::{position_of, SourcePosition};
use juniper::validation::{RuleError, ValidatorContext};
use juniper::visitor::{Field, Spanning};

fn spanning(text: &str, index: usize, line: usize, col: usize) -> Spanning<String> {
    Spanning {
        item: text.to_string(),
        start: SourcePosition::new(index, line, col),
        end: SourcePosition::new(index + text.len(), line, col + text.len()),
    }
}

fn aliased(alias: &str, index: usize) -> Field {
    Field { alias: Some(spanning(alias, index, 0, index)), name: spanning("f", index + alias.len() + 2, 0, index + alias.len() + 2) }
}

fn plain(index: usize) -> Field {
    Field { alias: None, name: spanning("f", index, 0, index) }
}

fn reported(query: &str) -> Vec<(String, SourcePosition)> {
    validate_document(factory(), query)
        .into_iter()
        .map(|e| {
            assert_eq!(e.locations.len(), 1);
            (e.message, e.locations[0])
        })
        .collect()
}

#[test]
fn error_message_names_the_alias() {
    assert_eq!(error_message("heroes"), "Illegal number of aliases, heroes is not allowed");
    assert_eq!(error_message(""), "Illegal number of aliases,  is not allowed");
}

#[test]
fn aliases_past_the_limit_are_reported_where_they_start() {
    let query = r#"
          query Hero {
            empireHero: hero(episode: EMPIRE) {
              name
            }
            jediHero: hero(episode: JEDI) {
              name
            }
            republicHero: hero(episode: REPUBLIC) {
                name
            }
            republicH3ro: hero(episode: REPUBLIC) {
                name
            }
            republicH4ro: hero(episode: REPUBLIC) {
                name
            }
          }
        "#;
    let errors = validate_document(factory(), query);
    assert_eq!(
        errors,
        vec![
            RuleError::new(&error_message("republicH3ro"), &[SourcePosition::new(281, 11, 12)]),
            RuleError::new(&error_message("republicH4ro"), &[SourcePosition::new(368, 14, 12)]),
        ]
    );
}

#[test]
fn places_in_the_hero_query() {
    let query = r#"
          query Hero {
            empireHero: hero(episode: EMPIRE) {
              name
            }
            jediHero: hero(episode: JEDI) {
              name
            }
            republicHero: hero(episode: REPUBLIC) {
                name
            }
            republicH3ro: hero(episode: REPUBLIC) {
                name
            }
            republicH4ro: hero(episode: REPUBLIC) {
                name
            }
          }
        "#;
    assert_eq!(&query[194..206], "republicHero");
    assert_eq!(&query[281..293], "republicH3ro");
    assert_eq!(&query[368..380], "republicH4ro");
    assert_eq!(position_of(query, 194), Some(SourcePosition::new(194, 8, 12)));
    assert_eq!(position_of(query, 281), Some(SourcePosition::new(281, 11, 12)));
    assert_eq!(position_of(query, 368), Some(SourcePosition::new(368, 14, 12)));
    assert_eq!(position_of(query, 268), Some(SourcePosition::new(268, 10, 13)));
    assert_eq!(position_of(query, 342), Some(SourcePosition::new(342, 13, 0)));
    let mut at_line_8_col_12 = Vec::new();
    for i in 0..=query.len() {
        let p = position_of(query, i).unwrap();
        if p.line == 8 && p.col == 12 {
            at_line_8_col_12.push(i);
        }
    }
    assert_eq!(at_line_8_col_12, vec![194]);
    assert_eq!(position_of(query, query.len() + 1), None);
}

#[test]
fn three_aliases_pass_and_the_fourth_is_reported() {
    assert!(reported("{ a: f b: f c: f }").is_empty());
    assert_eq!(
        reported("{ a: f b: f c: f d: f }"),
        vec![(error_message("d"), SourcePosition::new(17, 0, 17))]
    );
}

#[test]
fn each_operation_counts_from_zero() {
    assert!(reported("query A { a: f b: f c: f } query B { d: f e: f g: f }").is_empty());
    assert_eq!(
        reported("mutation A { a: f b: f } subscription B { c: f d: f e: f h: f }"),
        vec![(error_message("h"), SourcePosition::new(57, 0, 57))]
    );
    assert!(reported("{ a: f b: f c: f } { d: f e: f g: f }").is_empty());
}

#[test]
fn fields_without_alias_are_not_counted() {
    assert!(reported("{ f g h a: f i j b: f k c: f l m }").is_empty());
}

#[test]
fn nested_aliases_count_for_their_operation() {
    assert_eq!(
        reported("{ a: f { b: g { c: h { d: i } } } }"),
        vec![(error_message("d"), SourcePosition::new(23, 0, 23))]
    );
}

#[test]
fn fragments_go_on_with_the_count_of_the_operation_before() {
    assert_eq!(
        reported("query Q { a: f b: f } fragment F on T { c: f d: f }"),
        vec![(error_message("d"), SourcePosition::new(45, 0, 45))]
    );
}

#[test]
fn arguments_directives_comments_and_strings_hold_no_alias() {
    let query = r#"query Q($v: Boolean = true) {
  a: f(input: {x: 1, y: "z: w", u: [1, 2], t: {s: 3}}) @include(if: $v)
  # b: commented
  c: g(s: """block: string""")
  ... on T { d: h }
  ...Frag
  e: k
}"#;
    let got = reported(query);
    assert_eq!(got.len(), 1);
    assert_eq!(got[0].0, error_message("e"));
    assert_eq!(got[0].1.line, 6);
    assert_eq!(got[0].1.col, 2);
}

#[test]
fn positions_count_characters_not_bytes() {
    let query = "# ünïcödé\n{ a: f b: f c: f d: f }";
    assert_eq!(
        reported(query),
        vec![(error_message("d"), SourcePosition::new(27, 1, 17))]
    );
}

#[test]
fn no_document_no_errors() {
    assert!(reported("").is_empty());
    assert!(reported("   \n # just a comment").is_empty());
}

#[test]
fn enter_field_counts_aliases_and_reports_past_the_limit() {
    let mut rule = factory();
    let mut ctx = ValidatorContext::new();
    rule.enter_operation_definition();
    rule.enter_field(&mut ctx, &aliased("a", 0));
    rule.enter_field(&mut ctx, &plain(5));
    rule.enter_field(&mut ctx, &aliased("b", 10));
    rule.enter_field(&mut ctx, &aliased("c", 20));
    rule.enter_field(&mut ctx, &aliased("d", 30));
    rule.enter_operation_definition();
    rule.enter_field(&mut ctx, &aliased("e", 40));
    assert_eq!(
        ctx.into_errors(),
        vec![RuleError::new(&error_message("d"), &[SourcePosition::new(30, 0, 30)])]
    );
}

fn blanked(text: &str) -> String {
    text.chars().map(|c| if c == '\n' { '\n' } else { ' ' }).collect()
}

#[test]
fn a_document_validates_as_its_operations_one_after_another() {
    let first = "query A { a: f b: f c: f d: f }\n";
    let second = "query B {\n  e: f g: f\n  h: f i: f j: f\n}\n";
    let whole = format!("{}{}", first, second);
    let first_alone = format!("{}{}", first, blanked(second));
    let second_alone = format!("{}{}", blanked(first), second);
    let mut expected = validate_document(factory(), &first_alone);
    expected.extend(validate_document(factory(), &second_alone));
    let got = validate_document(factory(), &whole);
    assert_eq!(got, expected);
    assert_eq!(
        got,
        vec![
            RuleError::new(&error_message("d"), &[SourcePosition::new(25, 0, 25)]),
            RuleError::new(&error_message("i"), &[SourcePosition::new(61, 3, 7)]),
            RuleError::new(&error_message("j"), &[SourcePosition::new(66, 3, 12)]),
        ]
    );
}

#[test]
fn operations_on_one_line_validate_one_after_another() {
    let first = "query A { a: f b: f c: f d: f }, ";
    let second = "query B { e: f g: f h: f i: f j: f }";
    let whole = format!("{}{}", first, second);
    let first_alone = format!("{}{}", first, blanked(second));
    let second_alone = format!("{}{}", blanked(first), second);
    let mut expected = validate_document(factory(), &first_alone);
    expected.extend(validate_document(factory(), &second_alone));
    let got = validate_document(factory(), &whole);
    assert_eq!(got, expected);
    assert_eq!(
        got,
        vec![
            RuleError::new(&error_message("d"), &[SourcePosition::new(25, 0, 25)]),
            RuleError::new(&error_message("i"), &[SourcePosition::new(58, 0, 58)]),
            RuleError::new(&error_message("j"), &[SourcePosition::new(63, 0, 63)]),
        ]
    );
}

#[test]
fn count_restarts_at_each_operation_definition() {
    let mut rule = factory();
    let mut ctx = ValidatorContext::new();
    for i in 0..3 {
        rule.enter_field(&mut ctx, &aliased("a", i * 10));
    }
    rule.enter_operation_definition();
    for i in 3..6 {
        rule.enter_field(&mut ctx, &aliased("b", i * 10));
        rule.enter_field(&mut ctx, &plain(i * 10 + 5));
    }
    rule.enter_field(&mut ctx, &aliased("c", 60));
    rule.enter_field(&mut ctx, &aliased("e", 70));
    assert_eq!(
        ctx.into_errors(),
        vec![
            RuleError::new(&error_message("c"), &[SourcePosition::new(60, 0, 60)]),
            RuleError::new(&error_message("e"), &[SourcePosition::new(70, 0, 70)]),
        ]
    );
}

#[test]
fn one_operation_reports_each_alias_past_the_third_at_any_depth() {
    let query = "query Q { a: f { b: g { c: h } } d: i e: j { k } l: m }";
    let got = reported(query);
    assert_eq!(
        got,
        vec![
            (error_message("d"), SourcePosition::new(33, 0, 33)),
            (error_message("e"), SourcePosition::new(38, 0, 38)),
            (error_message("l"), SourcePosition::new(49, 0, 49)),
        ]
    );
}

#[test]
fn fragment_fields_count_with_the_operation_before_them() {
    let query = "query Q { a: f b: f c: f }\nfragment F on T { d: f }";
    assert_eq!(reported(query), vec![(error_message("d"), SourcePosition::new(45, 1, 18))]);
}
