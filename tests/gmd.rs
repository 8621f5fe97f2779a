use chrono::Datelike;
use gmd_parser::calculator::{CalcError, FlattenError, FlattenWarning, GMDSummary, GMDSummaryBuilder};
use gmd_parser::decimal::Decimal;
use gmd_parser::keyword::Keyword;
use gmd_parser::parser::Production;
use gmd_parser::merge::{first_day, join_logs, merge_order};
use gmd_parser::table::{column_order, products_seen, total, total_of};
use gmd_parser::models::{
    AmountOf, Date, Eat, GMDLog, Gram, Kcal, LogEntry, ProductDefinition, ProductName, Quantity,
    StartDay, UnitOfMeasure,
};

fn g(mantissa: i64, scale: u32) -> Quantity {
    Quantity { amount: Decimal::new(mantissa, scale), unit: UnitOfMeasure::Gram(Gram) }
}

fn frytki(batch: Quantity) -> ProductDefinition {
    let ingredients = vec![
        g(4144, 2).of(ProductName::new("Carbohydrates")),
        g(1473, 2).of(ProductName::new("Fat")),
        g(343, 2).of(ProductName::new("Protein")),
        g(38, 1).of(ProductName::new("Fiber")),
        g(3855, 2).of(ProductName::new("Water")),
    ];
    ProductDefinition { name: ProductName::new("Frytki"), ingredients: Some(batch.of(ingredients)) }
}

fn frytki_log(eaten: Quantity) -> GMDLog {
    let today = Date::new(2024, 1, 27);
    GMDLog(vec![
        LogEntry::StartDay(StartDay(today)),
        LogEntry::Define(ProductDefinition::primitive("Protein")),
        LogEntry::Define(ProductDefinition::primitive("Fat")),
        LogEntry::Define(ProductDefinition::primitive("Fiber")),
        LogEntry::Define(ProductDefinition::primitive("Carbohydrates")),
        LogEntry::Define(ProductDefinition::primitive("Water")),
        LogEntry::Define(frytki(g(100, 0))),
        LogEntry::Eat(Eat(eaten.of(ProductName::new("Frytki")))),
    ])
}

fn eaten_on(summary: &GMDSummary, day: Date, name: &str) -> Vec<Quantity> {
    summary.day(&day).expect("no such day").state_of(name).expect("no such product").clone()
}

#[test]
fn test_sample_input() {
    let today = Date::new(2024, 1, 27);
    let log = frytki_log(g(100, 0));
    let summary = GMDSummary::from_log(&log).unwrap();
    assert_eq!(vec![g(343, 2)], eaten_on(&summary, today, "Protein"));
}

#[test]
fn test_unit_of_measure() {
    assert_eq!(UnitOfMeasure::from_gmd("g").unwrap(), UnitOfMeasure::Gram(Gram));
    assert!(UnitOfMeasure::from_gmd("e").is_err());
    assert!(UnitOfMeasure::from_gmd(" ").is_err());
}

#[test]
fn test_decimal() {
    assert!(Decimal::from_gmd("g").is_err());
    assert_eq!(Decimal::from_gmd("1").unwrap(), Decimal::new(10, 1));
    assert_eq!(Decimal::from_gmd("21.37").unwrap(), Decimal::new(2137, 2));
    assert_eq!(Decimal::from_gmd("-21.37").unwrap(), Decimal::new(-2137, 2));
    assert!(Decimal::from_gmd("21-37").is_err());
}

#[test]
fn test_quantity() {
    assert_eq!(
        Quantity::from_gmd("10g").unwrap(),
        Quantity { amount: Decimal::new(100, 1), unit: UnitOfMeasure::Gram(Gram) }
    );
}

#[test]
fn milligrams_equal_grams() {
    assert_eq!(Quantity::from_gmd("1000mg").unwrap(), Quantity::from_gmd("1g").unwrap());
    assert_eq!(Quantity::from_gmd("2000000\u{b5}g").unwrap(), g(2, 0));
    assert_eq!(Quantity::from_gmd("0.5kcal").unwrap().unit, UnitOfMeasure::Kcal(Kcal));
}

#[test]
fn decimal_rejects_malformed_runs() {
    assert!(Decimal::from_gmd("21-37").is_err());
    assert!(Decimal::from_gmd("e").is_err());
    assert!(Decimal::from_gmd(" ").is_err());
    assert!(Decimal::from_gmd("1.2.3").is_err());
    assert!(Decimal::from_gmd("-").is_err());
    let d = Decimal::from_gmd("-21.37").unwrap();
    assert_eq!(d.mantissa(), -2137);
    assert_eq!(d.scale(), 2);
}

#[test]
fn quantity_needs_unit_right_after_number() {
    assert!(Quantity::from_gmd("10 g").is_err());
    assert!(Quantity::from_gmd("10").is_err());
    assert!(Quantity::from_gmd("10lb").is_err());
}

#[test]
fn end_to_end_scenario() {
    let log = frytki_log(g(100, 0));
    let summary = GMDSummary::from_log_on(&log, Date::new(2000, 1, 1)).unwrap();
    let today = Date::new(2024, 1, 27);
    assert_eq!(vec![g(343, 2)], eaten_on(&summary, today, "Protein"));
    assert_eq!(vec![g(4144, 2)], eaten_on(&summary, today, "Carbohydrates"));
    assert!(summary.day(&today).unwrap().state_of("Frytki").is_none());
    assert!(summary.warnings.is_empty());
}

#[test]
fn batch_scaling_scenario() {
    let log = frytki_log(g(50, 0));
    let summary = GMDSummary::from_log(&log).unwrap();
    assert_eq!(vec![g(1715, 3)], eaten_on(&summary, Date::new(2024, 1, 27), "Protein"));
}

#[test]
fn parses_and_summarizes_text() {
    let text = "\n  2024-01-27\nof 1g of Protein\nof 100g of Frytki\n - 3.43g of Protein\n\neat 50g of Frytki\n  ";
    let log = GMDLog::from_gmd(text).unwrap();
    assert_eq!(log.0.len(), 4);
    match &log.0[2] {
        LogEntry::Define(p) => {
            assert_eq!(p.name.0, "Frytki");
            let batch = p.ingredients.as_ref().unwrap();
            assert_eq!(batch.quantity, g(100, 0));
            assert_eq!(batch.inner.len(), 1);
            assert_eq!(batch.inner[0].inner.0, "Protein");
        },
        _ => panic!("expected a definition"),
    }
    let summary = GMDSummary::from_log(&log).unwrap();
    assert_eq!(vec![g(1715, 3)], eaten_on(&summary, Date::new(2024, 1, 27), "Protein"));
}

#[test]
fn parses_dates_in_three_formats() {
    for text in ["2024-01-27", "2024.01.27", "2024/01/27"] {
        let log = GMDLog::from_gmd(text).unwrap();
        match &log.0[0] {
            LogEntry::StartDay(StartDay(d)) => assert_eq!(*d, Date::new(2024, 1, 27)),
            _ => panic!("expected a day"),
        }
    }
    assert!(GMDLog::from_gmd("2024-13-27").is_err());
    assert!(GMDLog::from_gmd("27/01/2024").is_err());
}

#[test]
fn rejects_unconsumed_remainder_and_glued_entries() {
    assert!(GMDLog::from_gmd("").is_err());
    let err = GMDLog::from_gmd("2024-01-27 ?").unwrap_err();
    assert_eq!(err.production, Production::GMDLog);
    assert_eq!(err.position, 10);
    assert_eq!(GMDLog::from_gmd("? 2024-01-27").unwrap_err().production, Production::LogEntry);
    assert!(GMDLog::from_gmd("2024-01-272024-01-28").is_err());
    assert!(GMDLog::from_gmd("eat 10g Protein").is_err());
    assert!(GMDLog::from_gmd("2024-01-27\n\n2024-01-28").is_ok());
}

#[test]
fn primitive_definition_line() {
    let log = GMDLog::from_gmd("of 5g of Salt").unwrap();
    match &log.0[0] {
        LogEntry::Define(p) => {
            assert_eq!(p.name.0, "Salt");
            assert!(p.ingredients.is_none());
        },
        _ => panic!("expected a definition"),
    }
}

fn shake(protein: i64) -> ProductDefinition {
    ProductDefinition {
        name: ProductName::new("Shake"),
        ingredients: Some(g(100, 0).of(vec![g(protein, 0).of(ProductName::new("Protein"))])),
    }
}

#[test]
fn definition_stays_visible_on_later_days() {
    let log = GMDLog(vec![
        LogEntry::StartDay(StartDay(Date::new(2024, 1, 1))),
        LogEntry::Define(ProductDefinition::primitive("Protein")),
        LogEntry::Define(shake(20)),
        LogEntry::StartDay(StartDay(Date::new(2024, 1, 5))),
        LogEntry::Eat(Eat(g(100, 0).of(ProductName::new("Shake")))),
    ]);
    let summary = GMDSummary::from_log(&log).unwrap();
    assert_eq!(vec![g(20, 0)], eaten_on(&summary, Date::new(2024, 1, 5), "Protein"));
}

#[test]
fn redefinition_shadows_earlier_definition() {
    let log = GMDLog(vec![
        LogEntry::StartDay(StartDay(Date::new(2024, 1, 1))),
        LogEntry::Define(ProductDefinition::primitive("Protein")),
        LogEntry::Define(shake(20)),
        LogEntry::StartDay(StartDay(Date::new(2024, 1, 3))),
        LogEntry::Define(shake(30)),
        LogEntry::Eat(Eat(g(100, 0).of(ProductName::new("Shake")))),
        LogEntry::StartDay(StartDay(Date::new(2024, 1, 2))),
        LogEntry::Eat(Eat(g(100, 0).of(ProductName::new("Shake")))),
    ]);
    let summary = GMDSummary::from_log(&log).unwrap();
    assert_eq!(vec![g(30, 0)], eaten_on(&summary, Date::new(2024, 1, 3), "Protein"));
    assert_eq!(vec![g(20, 0)], eaten_on(&summary, Date::new(2024, 1, 2), "Protein"));
    let days: Vec<Date> = summary.days.iter().map(|(d, _)| *d).collect();
    assert_eq!(days, vec![Date::new(2024, 1, 1), Date::new(2024, 1, 2), Date::new(2024, 1, 3)]);
}

#[test]
fn flattening_conserves_quantity() {
    let log = GMDLog(vec![
        LogEntry::StartDay(StartDay(Date::new(2024, 1, 1))),
        LogEntry::Define(ProductDefinition::primitive("Protein")),
        LogEntry::Define(shake(100)),
        LogEntry::Eat(Eat(g(100, 0).of(ProductName::new("Protein")))),
        LogEntry::Eat(Eat(g(100, 0).of(ProductName::new("Shake")))),
    ]);
    let summary = GMDSummary::from_log(&log).unwrap();
    assert_eq!(vec![g(100, 0), g(100, 0)], eaten_on(&summary, Date::new(2024, 1, 1), "Protein"));
}

#[test]
fn unresolvable_ingredient_falls_back_to_product() {
    let log = GMDLog(vec![
        LogEntry::StartDay(StartDay(Date::new(2024, 1, 1))),
        LogEntry::Define(shake(20)),
        LogEntry::Eat(Eat(g(40, 0).of(ProductName::new("Shake")))),
    ]);
    let summary = GMDSummary::from_log(&log).unwrap();
    let day = summary.day(&Date::new(2024, 1, 1)).unwrap();
    assert_eq!(day.state_of("Shake").unwrap(), &vec![g(40, 0)]);
    assert!(day.state_of("Protein").is_none());
    assert_eq!(summary.warnings.len(), 1);
    assert_eq!(summary.warnings[0].product.0, "Shake");
    assert_eq!(summary.warnings[0].error, FlattenError::UndefinedProduct);
}

#[test]
fn unit_mismatch_falls_back_to_product() {
    let bad = ProductDefinition {
        name: ProductName::new("Bar"),
        ingredients: Some(g(100, 0).of(vec![Quantity {
            amount: Decimal::new(5, 0),
            unit: UnitOfMeasure::Kcal(Kcal),
        }
        .of(ProductName::new("Protein"))])),
    };
    let log = GMDLog(vec![
        LogEntry::Define(ProductDefinition::primitive("Protein")),
        LogEntry::Define(bad),
        LogEntry::Eat(Eat(g(10, 0).of(ProductName::new("Bar")))),
    ]);
    let summary = GMDSummary::from_log_on(&log, Date::new(2024, 2, 2)).unwrap();
    assert_eq!(eaten_on(&summary, Date::new(2024, 2, 2), "Bar"), vec![g(10, 0)]);
    assert_eq!(summary.warnings[0].error, FlattenError::UnitMismatch);
}

#[test]
fn cyclic_ingredients_terminate() {
    let a = ProductDefinition {
        name: ProductName::new("A"),
        ingredients: Some(g(1, 0).of(vec![g(1, 0).of(ProductName::new("B"))])),
    };
    let b = ProductDefinition {
        name: ProductName::new("B"),
        ingredients: Some(g(1, 0).of(vec![g(1, 0).of(ProductName::new("A"))])),
    };
    let log = GMDLog(vec![
        LogEntry::Define(a),
        LogEntry::Define(b),
        LogEntry::Eat(Eat(g(3, 0).of(ProductName::new("A")))),
    ]);
    let summary = GMDSummary::from_log_on(&log, Date::new(2024, 1, 1)).unwrap();
    assert_eq!(eaten_on(&summary, Date::new(2024, 1, 1), "B"), vec![g(3, 0)]);
    assert_eq!(summary.warnings[0].error, FlattenError::Cycle);
}

#[test]
fn eating_an_undefined_product_fails() {
    let log = GMDLog(vec![
        LogEntry::StartDay(StartDay(Date::new(2024, 1, 1))),
        LogEntry::Eat(Eat(g(1, 0).of(ProductName::new("Ghost")))),
    ]);
    match GMDSummary::from_log(&log) {
        Err(CalcError::UndefinedProduct(n)) => assert_eq!(n.0, "Ghost"),
        Ok(_) => panic!("expected an error"),
    }
}

#[test]
fn definitions_are_not_visible_before_their_day() {
    let log = GMDLog(vec![
        LogEntry::StartDay(StartDay(Date::new(2024, 1, 5))),
        LogEntry::Define(ProductDefinition::primitive("Protein")),
        LogEntry::StartDay(StartDay(Date::new(2024, 1, 4))),
        LogEntry::Eat(Eat(g(1, 0).of(ProductName::new("Protein")))),
    ]);
    assert!(GMDSummary::from_log(&log).is_err());
}

#[test]
fn quantity_arithmetic() {
    let mut q = g(15, 1);
    assert!(q.try_add(g(25, 1)).is_ok());
    assert_eq!(q, g(4, 0));
    let kcal = Quantity { amount: Decimal::new(1, 0), unit: UnitOfMeasure::Kcal(Kcal) };
    assert!(q.try_add(kcal).is_err());
    assert_eq!(q, g(4, 0));
    let r = g(343, 2).ratio(g(100, 0)).unwrap();
    assert_eq!(g(50, 0).scale_by(r).unwrap(), g(1715, 3));
    assert!(g(1, 0).ratio(kcal).is_none());
    assert!(g(1, 0).ratio(g(0, 0)).is_none());
    assert_eq!(UnitOfMeasure::Kcal(Kcal).symbol(), "kcal");
    let a: AmountOf<ProductName> = g(1, 0).of(ProductName::new("X"));
    assert_eq!(a.as_ref_inner().inner.0, "X");
}

#[test]
fn keywords() {
    let s: Vec<char> = "eat of".chars().collect();
    assert_eq!(Keyword::eat().tag(&s, 0), Some(3));
    assert_eq!(Keyword::of().tag(&s, 4), Some(6));
    assert_eq!(Keyword::of().tag(&s, 0), None);
    assert_eq!(Keyword::define().value, "of");
}

#[test]
fn multi_file_ordering() {
    let february = GMDLog::from_gmd("2024-02-01\neat 50g of Frytki").unwrap();
    let january = GMDLog::from_gmd(
        "2024-01-01\nof 1g of Protein\nof 100g of Frytki\n - 3.43g of Protein",
    )
    .unwrap();
    assert_eq!(first_day(&february), Some(Date::new(2024, 2, 1)));
    let logs = vec![february, january];
    assert_eq!(merge_order(&logs), vec![1, 0]);
    let merged = join_logs(logs);
    assert_eq!(merged.0.len(), 5);
    let summary = GMDSummary::from_log(&merged).unwrap();
    assert_eq!(vec![g(1715, 3)], eaten_on(&summary, Date::new(2024, 2, 1), "Protein"));
}

#[test]
fn merge_order_is_stable_and_puts_dayless_logs_first() {
    let a = GMDLog::from_gmd("2024-01-02").unwrap();
    let b = GMDLog::from_gmd("of 1g of Salt").unwrap();
    let c = GMDLog::from_gmd("2024-01-01").unwrap();
    let d = GMDLog::from_gmd("of 1g of Sugar\n2024-01-02").unwrap();
    assert_eq!(first_day(&b), None);
    assert_eq!(merge_order(&vec![a, b, c, d]), vec![1, 2, 0, 3]);
}

#[test]
fn totals_and_columns() {
    assert_eq!(total(&vec![g(15, 1), g(25, 1)]), Some(g(4, 0)));
    assert_eq!(total(&vec![]), None);
    let kcal = Quantity { amount: Decimal::new(1, 0), unit: UnitOfMeasure::Kcal(Kcal) };
    assert_eq!(total(&vec![g(1, 0), kcal]), None);
    let log = GMDLog::from_gmd(
        "2024-01-01\nof 1g of Salt\nof 1g of Sugar\nof 1g of Rice\neat 1g of Salt\neat 5g of Sugar\n2024-01-02\neat 2g of Salt\neat 3g of Rice",
    )
    .unwrap();
    let summary = GMDSummary::from_log(&log).unwrap();
    let seen: Vec<String> = products_seen(&summary).iter().map(|n| n.0.clone()).collect();
    assert_eq!(seen, vec!["Salt", "Sugar", "Rice"]);
    assert_eq!(total_of(&summary, &ProductName::new("Salt")), Some(g(3, 0)));
    let columns: Vec<String> = column_order(&summary).iter().map(|n| n.0.clone()).collect();
    assert_eq!(columns, vec!["Sugar", "Salt", "Rice"]);
}

#[test]
fn entries_before_any_day_belong_to_today() {
    let log = GMDLog::from_gmd("of 1g of Salt\neat 2g of Salt").unwrap();
    let summary = GMDSummary::from_log(&log).unwrap();
    let now = chrono::Local::now().date_naive();
    let today = Date::new(now.year(), now.month(), now.day());
    assert_eq!(summary.days.len(), 1);
    assert_eq!(eaten_on(&summary, today, "Salt"), vec![g(2, 0)]);
}

#[test]
fn builder_resolves_and_flattens() {
    let log = frytki_log(g(100, 0));
    let mut builder = GMDSummaryBuilder::new();
    let mut warnings: Vec<FlattenWarning> = Vec::new();
    for entry in log.0.iter() {
        if let LogEntry::Eat(_) = entry {
            break;
        }
        assert!(builder.apply(entry, &mut warnings).is_ok());
    }
    assert_eq!(builder.current_day, Date::new(2024, 1, 27));
    let frytki = builder.definition(&ProductName::new("Frytki")).unwrap();
    assert!(builder.definition(&ProductName::new("Ketchup")).is_none());
    let once = builder.flatten_product_once(frytki, g(50, 0), &Vec::new()).unwrap();
    assert_eq!(once.len(), 5);
    assert_eq!(once[2].inner.name.0, "Protein");
    assert_eq!(once[2].quantity, g(1715, 3));
    let flat = builder.flatten_product(frytki, g(200, 0), &mut warnings);
    assert_eq!(flat.len(), 5);
    assert_eq!(flat[2].quantity, g(686, 2));
    assert!(warnings.is_empty());
    let shares = g(10, 0).of_ingredient(frytki).unwrap();
    assert_eq!(shares[4].quantity, g(3855, 3));
    assert_eq!(
        g(10, 0).of_ingredient(&ProductDefinition::primitive("Water")).unwrap_err(),
        FlattenError::NoIngredients
    );
}

#[test]
fn ingredient_marker_needs_no_white_space() {
    let spaced = "of 100g of Frytki\n - 41.44g of Carbohydrates\n - 3.43g of Protein";
    let tight = "of 100g of Frytki\n-41.44g of Carbohydrates\n -3.43g of Protein";
    for text in [spaced, tight] {
        let log = GMDLog::from_gmd(text).unwrap();
        assert_eq!(log.0.len(), 1);
        match &log.0[0] {
            LogEntry::Define(p) => {
                assert_eq!(p.name.0, "Frytki");
                let batch = p.ingredients.as_ref().unwrap();
                assert_eq!(batch.quantity, g(100, 0));
                assert_eq!(batch.inner.len(), 2);
                assert_eq!(batch.inner[0].inner.0, "Carbohydrates");
                assert_eq!(batch.inner[0].quantity, g(4144, 2));
                assert_eq!(batch.inner[1].inner.0, "Protein");
                assert_eq!(batch.inner[1].quantity, g(343, 2));
            },
            _ => panic!("expected a definition"),
        }
    }
}

#[test]
fn empty_ingredient_list_falls_back_to_product() {
    let hollow = ProductDefinition {
        name: ProductName::new("Air"),
        ingredients: Some(g(100, 0).of(Vec::new())),
    };
    let log = GMDLog(vec![LogEntry::Define(hollow), LogEntry::Eat(Eat(g(7, 0).of(ProductName::new("Air"))))]);
    let summary = GMDSummary::from_log_on(&log, Date::new(2024, 1, 1)).unwrap();
    assert_eq!(eaten_on(&summary, Date::new(2024, 1, 1), "Air"), vec![g(7, 0)]);
    assert_eq!(summary.warnings.len(), 1);
    assert_eq!(summary.warnings[0].error, FlattenError::NoIngredients);
}

#[test]
fn primitive_products_give_no_warning_and_nested_failures_do() {
    let inner = ProductDefinition {
        name: ProductName::new("Sauce"),
        ingredients: Some(g(10, 0).of(vec![g(5, 0).of(ProductName::new("Ghost"))])),
    };
    let outer = ProductDefinition {
        name: ProductName::new("Dish"),
        ingredients: Some(g(10, 0).of(vec![
            g(5, 0).of(ProductName::new("Salt")),
            g(5, 0).of(ProductName::new("Sauce")),
        ])),
    };
    let log = GMDLog(vec![
        LogEntry::Define(ProductDefinition::primitive("Salt")),
        LogEntry::Define(inner),
        LogEntry::Define(outer),
        LogEntry::Eat(Eat(g(10, 0).of(ProductName::new("Salt")))),
        LogEntry::Eat(Eat(g(20, 0).of(ProductName::new("Dish")))),
    ]);
    let summary = GMDSummary::from_log_on(&log, Date::new(2024, 1, 1)).unwrap();
    let day = Date::new(2024, 1, 1);
    assert_eq!(eaten_on(&summary, day, "Salt"), vec![g(10, 0), g(10, 0)]);
    assert_eq!(eaten_on(&summary, day, "Sauce"), vec![g(10, 0)]);
    assert_eq!(summary.warnings.len(), 1);
    assert_eq!(summary.warnings[0].product.0, "Sauce");
    assert_eq!(summary.warnings[0].error, FlattenError::UndefinedProduct);
}
