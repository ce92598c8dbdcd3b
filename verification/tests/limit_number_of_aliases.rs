use juniper::limit_number_of_aliases::{error_message, factory, validate_document, Aliases};
use juniper::position::SourcePosition;
use juniper::validation::RuleError;

fn expect_passes_rule(rule: fn() -> Aliases, query: &str) {
    let errors = validate_document(rule(), query);
    assert!(errors.is_empty(), "expected no errors, found {:?}", errors);
}

fn expect_fails_rule(rule: fn() -> Aliases, query: &str, expected_errors: &[RuleError]) {
    let errors = validate_document(rule(), query);
    assert!(!errors.is_empty(), "expected the rule to fail, but no errors were found");
    assert_eq!(errors, expected_errors);
}

#[test]
fn single_alias_allowed() {
    expect_passes_rule(
        factory,
        r#"
            mutation CreateLiquidToken {
              liquidApplication: createLiquidSdkApplication {
                token
                applicantId
              }
            }
            "#,
    );

    expect_passes_rule(
        factory,
        r#"
          mutation UpdateLiquidToken {
              liquidApplication: createLiquidSdkUpdateApplication {
                token
                applicantId
              }
            }
            "#,
    );
}

#[test]
fn multiple_alias_allowed() {
    expect_passes_rule(
        factory,
        r#"
          query Hero {
            empireHero: hero(episode: EMPIRE) {
              name
            }
            jediHero: hero(episode: JEDI) {
              name
            }
            republicHero: hero(episode: REPUBLIC) {
                name
            }
            "#,
    );
}

#[test]
fn multiple_field_aliases_not_allowed() {
    let mut query = String::from("query MyQuery {\n");
    let mut expected_errors: Vec<RuleError> = Vec::new();
    let mut current_error_index = 124;
    let mut previous_line_length = 0;
    for i in 1..=9999 {
        let line = format!("            myField{}: my_field,\n", i);
        let line_length = line.len();
        query.push_str(&line);
        // 3 aliases are allowed, so we ignore the first 3.
        if i > 3 {
            current_error_index += previous_line_length;
            previous_line_length = line_length;
            expected_errors.push(RuleError::new(
                &error_message(&format!("myField{}", i)),
                &[SourcePosition::new(current_error_index, i, 12)],
            ));
        }
    }
    query.push_str("        }\n");

    expect_fails_rule(factory, &query, &expected_errors);
}

#[test]
fn no_aliases() {
    expect_passes_rule(
        factory,
        r#"
            query MyQuery {
                my_field
            }
            "#,
    );
}
