use tessera_bridge::changes::{advance_notified, head_sequence, library_change, CatalogChange, ChangedFields, LibraryChangeKind};
use tessera_bridge::collections::{
    filter_clauses, request_clauses, request_rule, FacetFilter, in_album_order, all_of, counts, facet_clause, parse_u8, scope_group, FacetField, SearchScope, SmartAlbumRef,
};
use tessera_bridge::rules::{render_items, RuleItem, RuleItemKind};
use tessera_bridge::search::{flatten, render, rule_text, RuleValue, SavedSearch};
use tessera_bridge::selection::{millis_i64, search_limit, Decision, Selection};

fn rule(criteria: &str, operation: &str, value: &str) -> SavedSearch {
    SavedSearch::Rule {
        criteria: criteria.to_string(),
        operation: operation.to_string(),
        value: RuleValue::Text(value.to_string()),
    }
}

fn number(criteria: &str, operation: &str, value: &str) -> SavedSearch {
    SavedSearch::Rule {
        criteria: criteria.to_string(),
        operation: operation.to_string(),
        value: RuleValue::Literal(value.to_string()),
    }
}

#[test]
fn rendered_items_round_trip_through_the_parser() {
    let cases = vec![
        (
            SavedSearch::All(vec![
                number("rating", ">=", "2"),
                SavedSearch::Any(vec![rule("camera", ":", "EOS R5"), rule("keyword", ":", "beach")]),
                SavedSearch::Not(vec![rule("decision", ":", "reject")]),
            ]),
            "rating>=2 AND (camera:\"EOS R5\" OR keyword:beach) AND NOT decision:reject",
        ),
        (
            SavedSearch::Not(vec![SavedSearch::Any(vec![
                rule("album", ":", "none"),
                rule("mark", ":", "Needs Retouch"),
            ])]),
            "NOT (album:none OR mark:\"Needs Retouch\")",
        ),
        (
            SavedSearch::All(vec![rule("text", ":", "beach"), rule("date", ":", "2024-01..2024-06")]),
            "beach AND date:2024-01..2024-06",
        ),
        (rule("text", ":", "a quoted phrase"), "\"a quoted phrase\""),
    ];
    for (search, text) in cases {
        assert_eq!(render(&search, true), text);
        let mut items = Vec::new();
        flatten(&search, &mut items);
        assert_eq!(render_items(&items).unwrap(), text);
    }
}

fn item(kind: RuleItemKind, children: u32) -> RuleItem {
    RuleItem { kind, children, field: String::new(), op: String::new(), value: String::new() }
}

#[test]
fn malformed_item_lists_are_refused() {
    assert_eq!(render_items(&vec![item(RuleItemKind::All, 2)]).unwrap_err().message_text(), "incomplete rule items");
    let leaf = RuleItem {
        kind: RuleItemKind::Rule,
        children: 0,
        field: "mark".to_string(),
        op: ":".to_string(),
        value: "x".to_string(),
    };
    assert_eq!(render_items(&vec![leaf.clone(), leaf.clone()]).unwrap_err().message_text(), "trailing rule items");
    let deep: Vec<RuleItem> = (0..70).map(|_| item(RuleItemKind::Not, 1)).chain(std::iter::once(leaf)).collect();
    assert_eq!(render_items(&deep).unwrap_err().message_text(), "rule nesting is too deep");
}

#[test]
fn not_of_several_children_reads_as_none_of_them() {
    let s = SavedSearch::Not(vec![rule("mark", ":", "a"), rule("mark", ":", "b")]);
    assert_eq!(render(&s, true), "NOT (mark:a OR mark:b)");
    let mut items = Vec::new();
    flatten(&s, &mut items);
    assert_eq!(items.len(), 3);
    assert_eq!(items[0].children, 2);
    assert_eq!(render_items(&items).unwrap(), "NOT (mark:a OR mark:b)");
}

#[test]
fn facet_counts_sort_by_count_then_value() {
    let out = counts(vec![
        ("b".to_string(), 3),
        ("a".to_string(), 3),
        ("c".to_string(), 5),
        ("big".to_string(), 1 << 40),
    ]);
    let rows: Vec<(String, u32)> = out.into_iter().map(|f| (f.value, f.count)).collect();
    assert_eq!(
        rows,
        vec![("big".to_string(), u32::MAX), ("c".to_string(), 5), ("a".to_string(), 3), ("b".to_string(), 3)]
    );
}

#[test]
fn facet_values_become_rules() {
    match facet_clause(FacetField::Grade, "2").unwrap() {
        SavedSearch::Rule { criteria, operation, value: RuleValue::Literal(n) } => {
            assert_eq!((criteria.as_str(), operation.as_str(), n.as_str()), ("rating", ":", "2"));
        }
        other => panic!("unexpected {other:?}"),
    }
    assert_eq!(facet_clause(FacetField::Grade, "x").unwrap_err().message_text(), "grade filter must be 1, 2 or 3");
    assert_eq!(facet_clause(FacetField::Grade, "300").unwrap_err().message_text(), "grade filter must be 1, 2 or 3");
    assert_eq!(render(&facet_clause(FacetField::Camera, "EOS R5").unwrap(), true), "camera:\"EOS R5\"");
    assert_eq!(render(&facet_clause(FacetField::Album, "none").unwrap(), true), "album:none");
    assert_eq!(parse_u8("+7"), Some(7));
    assert_eq!(parse_u8("256"), None);
}

#[test]
fn clauses_combine_by_and() {
    assert!(all_of(vec![]).is_none());
    assert_eq!(render(&all_of(vec![rule("mark", ":", "a")]).unwrap(), true), "mark:a");
    let both = all_of(vec![rule("mark", ":", "a"), rule("keyword", ":", "b")]).unwrap();
    assert_eq!(render(&both, true), "mark:a AND keyword:b");
}

#[test]
fn search_scope_names_its_group() {
    let smart = vec![
        SmartAlbumRef { id: 5, scoped: false, parent: Some(1) },
        SmartAlbumRef { id: 5, scoped: true, parent: Some(2) },
    ];
    assert_eq!(scope_group(&smart, SearchScope::Group { id: 9 }), Some(9));
    assert_eq!(scope_group(&smart, SearchScope::SmartAlbum { id: 5 }), Some(2));
    assert_eq!(scope_group(&smart, SearchScope::SmartAlbum { id: 6 }), None);
    assert_eq!(scope_group(&smart, SearchScope::All), None);
    assert_eq!(scope_group(&smart, SearchScope::Album { id: 5 }), None);
}

#[test]
fn selections_convert_with_their_grade() {
    let s = Selection { decision: Decision::Keep, grade: Some(2), mark: Some("Blue".to_string()) };
    let core = s.clone().into_core().unwrap();
    let back = Selection::from_core(core);
    assert_eq!(back.grade, Some(2));
    assert_eq!(back.decision, Decision::Keep);
    assert_eq!(back.mark.as_deref(), Some("Blue"));
    let bad = Selection { decision: Decision::Keep, grade: Some(4), mark: None };
    assert_eq!(bad.into_core().unwrap_err().message_text(), "grade must be 1, 2, or 3");
    assert_eq!(search_limit(0), i64::MAX as u64);
    assert_eq!(search_limit(25), 25);
    assert_eq!(millis_i64(1_700_000_000_000), 1_700_000_000_000);
    assert_eq!(millis_i64(u128::MAX), i64::MAX);
}

#[test]
fn library_changes_and_notifications() {
    let c = library_change(4, "id".to_string(), CatalogChange::Added);
    assert_eq!(c.kind, LibraryChangeKind::Added);
    assert_eq!(c.fields, ChangedFields::none());
    let mut f = ChangedFields::none();
    f.recipe = true;
    let u = library_change(5, "id".to_string(), CatalogChange::Updated(f));
    assert_eq!(u.kind, LibraryChangeKind::Updated);
    assert!(u.fields.recipe);
    assert_eq!(head_sequence(Some(-3)), 0);
    assert_eq!(head_sequence(Some(12)), 12);
    assert_eq!(head_sequence(None), 0);
    let mut notified = 3;
    assert!(advance_notified(&mut notified, 5));
    assert_eq!(notified, 5);
    assert!(!advance_notified(&mut notified, 4));
    assert_eq!(notified, 5);
}

#[test]
fn album_scopes_list_results_in_album_order() {
    let found = vec![5, 1, 9, 3, 7];
    let album = vec![3, 1, 5];
    assert_eq!(in_album_order(&found, &album), vec![3, 1, 5, 9, 7]);
    assert_eq!(in_album_order(&found, &vec![]), found);
}

fn filter(field: FacetField, values: &[&str]) -> FacetFilter {
    FacetFilter { field, values: values.iter().map(|s| s.to_string()).collect() }
}

#[test]
fn facet_filters_become_clauses() {
    let filters = vec![
        filter(FacetField::Camera, &["EOS R5", "  ", "Z 9"]),
        filter(FacetField::Grade, &["2"]),
        filter(FacetField::Keyword, &[" "]),
        filter(FacetField::Mark, &["a"]),
    ];
    let clauses = filter_clauses(&filters).unwrap();
    let texts: Vec<(FacetField, String)> = clauses.iter().map(|(f, c)| (*f, render(c, true))).collect();
    assert_eq!(
        texts,
        vec![
            (FacetField::Camera, "camera:\"EOS R5\" OR camera:\"Z 9\"".to_string()),
            (FacetField::Grade, "rating:2".to_string()),
            (FacetField::Mark, "mark:a".to_string()),
        ]
    );
    assert!(matches!(clauses[0].1, SavedSearch::Any(ref v) if v.len() == 2));
    let bad = vec![filter(FacetField::Mark, &["a"]), filter(FacetField::Grade, &["", "two"])];
    assert_eq!(filter_clauses(&bad).unwrap_err().message_text(), "grade filter must be 1, 2 or 3");
}

#[test]
fn a_request_reads_as_one_rule() {
    let filters = filter_clauses(&vec![
        filter(FacetField::Camera, &["EOS R5", "Z 9"]),
        filter(FacetField::Mark, &["a"]),
    ])
    .unwrap();
    let scope = Some(rule("album", ":", "trip"));
    let text = Some(rule("text", ":", "beach"));
    let rule_text = request_rule(&scope, &text, &filters, None);
    assert_eq!(rule_text, "album:trip AND beach AND (camera:\"EOS R5\" OR camera:\"Z 9\") AND mark:a");
    let others = request_clauses(&scope, &text, &filters, Some(FacetField::Camera));
    let texts: Vec<String> = others.iter().map(|c| render(c, false)).collect();
    assert_eq!(texts, vec!["album:trip", "beach", "mark:a"]);
    let only = filter_clauses(&vec![filter(FacetField::Camera, &["EOS R5", "Z 9"])]).unwrap();
    assert_eq!(request_rule(&None, &None, &only, None), "camera:\"EOS R5\" OR camera:\"Z 9\"");
    assert_eq!(request_rule(&None, &None, &vec![], None), "");
    // A readable text that does not parse back gives way to the canonical form.
    assert_eq!(request_rule(&None, &None, &only, Some("canonical".to_string())), "canonical");
    assert_eq!(request_rule(&None, &None, &vec![], Some("canonical".to_string())), "");
}

#[test]
fn rules_read_as_their_text_unless_it_does_not_parse_back() {
    let r = rule("camera", ":", "EOS R5");
    assert_eq!(rule_text(&r, None), "camera:\"EOS R5\"");
    assert_eq!(rule_text(&r, Some("{canonical}".to_string())), "{canonical}");
}
