use dns_batch::admission::AdmissionController;
use dns_batch::batch::{Batch, QueryDescriptor};
use dns_batch::outcome::{Outcome, ResultEntry};
use dns_batch::state::{ResolverPreset, ResolverRecipe};

fn recipe() -> ResolverRecipe {
    ResolverRecipe { preset: ResolverPreset::Default, cache_size: 32 }
}

fn rows(items: &[Option<&str>]) -> Vec<Option<String>> {
    items.iter().map(|r| r.map(|s| s.to_string())).collect()
}

fn text(s: &str) -> Outcome {
    Outcome::Text(s.to_string())
}

fn entry(index: usize, outcome: Outcome) -> ResultEntry {
    ResultEntry { index, outcome }
}

fn query(index: usize, payload: &str) -> QueryDescriptor {
    QueryDescriptor { index, payload: payload.to_string(), is_null: false }
}

#[test]
fn an_empty_batch_is_finished_at_once() {
    let mut ctl = AdmissionController::new(2).unwrap();
    let mut batch = Batch::new(Vec::new(), recipe());
    assert_eq!(batch.len(), 0);
    assert!(batch.is_finished());
    assert_eq!(batch.launch(&mut ctl), None);
    assert_eq!(ctl.in_flight(), 0);
    assert_eq!(batch.into_results(), Some(Vec::new()));
}

#[test]
fn a_batch_of_null_rows_is_all_null_without_any_lookup() {
    let mut ctl = AdmissionController::new(2).unwrap();
    let mut batch = Batch::new(rows(&[None, None, None]), recipe());
    assert!(batch.is_finished());
    assert_eq!(batch.launch(&mut ctl), None);
    assert_eq!(ctl.in_flight(), 0);
    assert_eq!(
        batch.into_results(),
        Some(vec![entry(0, Outcome::Null), entry(1, Outcome::Null), entry(2, Outcome::Null)])
    );
}

#[test]
fn null_rows_are_never_handed_out() {
    let mut ctl = AdmissionController::new(8).unwrap();
    let mut batch = Batch::new(rows(&[None, Some("a"), None, Some("b"), None]), recipe());
    assert_eq!(batch.launch(&mut ctl), Some(query(1, "a")));
    assert_eq!(batch.launch(&mut ctl), Some(query(3, "b")));
    assert_eq!(batch.launch(&mut ctl), None);
    assert_eq!(batch.in_flight(), 2);
    assert!(batch.complete(&mut ctl, 3, text("B")));
    assert!(batch.complete(&mut ctl, 1, text("A")));
    assert_eq!(
        batch.into_results(),
        Some(vec![
            entry(0, Outcome::Null),
            entry(1, text("A")),
            entry(2, Outcome::Null),
            entry(3, text("B")),
            entry(4, Outcome::Null),
        ])
    );
}

#[test]
fn lookups_in_flight_stay_within_the_limit() {
    let mut ctl = AdmissionController::new(2).unwrap();
    let mut batch = Batch::new(rows(&[Some("a"), Some("b"), Some("c"), Some("d")]), recipe());
    assert_eq!(batch.launch(&mut ctl), Some(query(0, "a")));
    assert_eq!(batch.launch(&mut ctl), Some(query(1, "b")));
    assert_eq!(batch.launch(&mut ctl), None);
    assert_eq!(batch.in_flight(), 2);
    assert_eq!(ctl.in_flight(), 2);
    assert!(batch.complete(&mut ctl, 1, Outcome::Null));
    assert_eq!(ctl.in_flight(), 1);
    assert_eq!(batch.launch(&mut ctl), Some(query(2, "c")));
    assert_eq!(batch.launch(&mut ctl), None);
    assert!(batch.complete(&mut ctl, 0, text("A")));
    assert!(batch.complete(&mut ctl, 2, text("C")));
    assert!(!batch.is_finished());
    assert_eq!(batch.launch(&mut ctl), Some(query(3, "d")));
    assert_eq!(batch.launch(&mut ctl), None);
    assert!(batch.complete(&mut ctl, 3, text("D")));
    assert!(batch.is_finished());
    assert_eq!(ctl.in_flight(), 0);
    assert_eq!(
        batch.into_results(),
        Some(vec![
            entry(0, text("A")),
            entry(1, Outcome::Null),
            entry(2, text("C")),
            entry(3, text("D")),
        ])
    );
}

fn run_in_order(order: &[usize]) -> Vec<ResultEntry> {
    let payloads = ["a", "b", "c", "d", "e"];
    let mut ctl = AdmissionController::new(5).unwrap();
    let mut batch = Batch::new(payloads.iter().map(|s| Some(s.to_string())).collect(), recipe());
    let mut launched = 0;
    while let Some(q) = batch.launch(&mut ctl) {
        assert_eq!(q.index, launched);
        assert_eq!(q.payload, payloads[launched]);
        launched += 1;
    }
    assert_eq!(launched, 5);
    for &i in order {
        assert!(batch.complete(&mut ctl, i, Outcome::Text(payloads[i].to_uppercase())));
    }
    batch.into_results().unwrap()
}

#[test]
fn the_order_of_completion_does_not_change_the_output() {
    let expected = vec![
        entry(0, text("A")),
        entry(1, text("B")),
        entry(2, text("C")),
        entry(3, text("D")),
        entry(4, text("E")),
    ];
    assert_eq!(run_in_order(&[0, 1, 2, 3, 4]), expected);
    assert_eq!(run_in_order(&[4, 3, 2, 1, 0]), expected);
    assert_eq!(run_in_order(&[2, 0, 4, 1, 3]), expected);
    assert_eq!(run_in_order(&[1, 4, 0, 3, 2]), expected);
}

#[test]
fn a_report_for_a_lookup_that_is_not_in_flight_is_turned_down() {
    let mut ctl = AdmissionController::new(1).unwrap();
    let mut batch = Batch::new(rows(&[Some("a"), None, Some("b")]), recipe());
    assert!(!batch.complete(&mut ctl, 0, text("early")));
    assert!(!batch.complete(&mut ctl, 1, text("null row")));
    assert!(!batch.complete(&mut ctl, 7, text("no such row")));
    assert_eq!(batch.launch(&mut ctl), Some(query(0, "a")));
    assert!(batch.complete(&mut ctl, 0, text("A")));
    assert!(!batch.complete(&mut ctl, 0, text("again")));
    assert_eq!(ctl.in_flight(), 0);
    assert_eq!(batch.launch(&mut ctl), Some(query(2, "b")));
    assert!(batch.complete(&mut ctl, 2, text("B")));
    assert_eq!(
        batch.into_results(),
        Some(vec![entry(0, text("A")), entry(1, Outcome::Null), entry(2, text("B"))])
    );
}

#[test]
fn there_are_no_results_before_every_row_has_one() {
    let mut ctl = AdmissionController::new(1).unwrap();
    let batch = Batch::new(rows(&[Some("a")]), recipe());
    assert!(!batch.is_finished());
    assert_eq!(batch.into_results(), None);
    let mut batch = Batch::new(rows(&[Some("a"), Some("b")]), recipe());
    batch.launch(&mut ctl);
    batch.complete(&mut ctl, 0, text("A"));
    assert!(!batch.is_finished());
    assert_eq!(batch.into_results(), None);
    let mut batch = Batch::new(rows(&[Some("a")]), recipe());
    batch.launch(&mut ctl);
    assert_eq!(batch.into_results(), None);
}

#[test]
fn equal_rows_are_looked_up_each_on_its_own() {
    let mut ctl = AdmissionController::new(4).unwrap();
    let mut batch = Batch::new(rows(&[Some("x"), Some("x"), Some("x")]), recipe());
    assert_eq!(batch.launch(&mut ctl), Some(query(0, "x")));
    assert_eq!(batch.launch(&mut ctl), Some(query(1, "x")));
    assert_eq!(batch.launch(&mut ctl), Some(query(2, "x")));
    assert_eq!(batch.in_flight(), 3);
    assert!(batch.complete(&mut ctl, 0, text("1")));
    assert!(batch.complete(&mut ctl, 1, Outcome::Null));
    assert!(batch.complete(&mut ctl, 2, text("3")));
    assert_eq!(
        batch.into_results(),
        Some(vec![entry(0, text("1")), entry(1, Outcome::Null), entry(2, text("3"))])
    );
}

#[test]
fn a_batch_keeps_the_resolver_it_began_with() {
    let google = ResolverRecipe { preset: ResolverPreset::Google, cache_size: 64 };
    let mut ctl = AdmissionController::new(1).unwrap();
    let mut batch = Batch::new(rows(&[Some("a")]), google);
    assert_eq!(batch.resolver(), google);
    batch.launch(&mut ctl);
    batch.complete(&mut ctl, 0, Outcome::Null);
    assert_eq!(batch.resolver(), google);
}

#[test]
fn a_large_batch_with_random_completion_keeps_positions_and_the_bound() {
    let n = 3000usize;
    let limit = 7u64;
    let mut input: Vec<Option<String>> = Vec::new();
    for i in 0..n {
        if i % 5 == 2 {
            input.push(None);
        } else {
            input.push(Some(format!("host{}", i)));
        }
    }
    let mut ctl = AdmissionController::new(limit).unwrap();
    let mut batch = Batch::new(input, recipe());
    let mut in_flight: Vec<QueryDescriptor> = Vec::new();
    let mut seed: u64 = 99;
    while !batch.is_finished() {
        while let Some(q) = batch.launch(&mut ctl) {
            assert!(!q.is_null);
            assert_eq!(q.payload, format!("host{}", q.index));
            in_flight.push(q);
        }
        assert!(in_flight.len() as u64 <= limit);
        assert_eq!(batch.in_flight(), in_flight.len());
        assert_eq!(ctl.in_flight(), in_flight.len() as u64);
        seed = seed.wrapping_mul(6364136223846793005).wrapping_add(1442695040888963407);
        let pick = (seed >> 33) as usize % in_flight.len();
        let q = in_flight.swap_remove(pick);
        let outcome = if q.index % 7 == 0 { Outcome::Null } else { Outcome::Text(q.payload) };
        assert!(batch.complete(&mut ctl, q.index, outcome));
    }
    assert_eq!(ctl.in_flight(), 0);
    let results = batch.into_results().unwrap();
    assert_eq!(results.len(), n);
    for (i, e) in results.iter().enumerate() {
        assert_eq!(e.index, i);
        if i % 5 == 2 || i % 7 == 0 {
            assert_eq!(e.outcome, Outcome::Null);
        } else {
            assert_eq!(e.outcome, Outcome::Text(format!("host{}", i)));
        }
    }
}
