use graphql_app::graphql::{
    page_number, try_user_connections, user_connections, Cursor, Mutation, Query, UserConnection,
};
use graphql_app::models::{Country, QueryError, User};
use juniper::ID;

fn user(id: i32, name: &str, country_id: i32) -> User {
    User { id, name: name.to_string(), country_id }
}

fn country(id: i32, name: &str) -> Country {
    Country { id, name: name.to_string() }
}

fn three_users() -> Vec<User> {
    vec![user(1, "1", 1), user(2, "2", 1), user(3, "3", 1)]
}

fn names(connection: &UserConnection) -> Vec<String> {
    connection.field_edges().iter().map(|edge| edge.field_node().name.clone()).collect()
}

fn edge_cursors(connection: &UserConnection) -> Vec<String> {
    connection.field_edges().iter().map(|edge| edge.field_cursor().0.clone()).collect()
}

fn start_cursor(connection: &UserConnection) -> Option<String> {
    connection.field_page_info().field_start_cursor().as_ref().map(|cursor| cursor.0.clone())
}

fn end_cursor(connection: &UserConnection) -> Option<String> {
    connection.field_page_info().field_end_cursor().as_ref().map(|cursor| cursor.0.clone())
}

fn has_next_page(connection: &UserConnection) -> bool {
    *connection.field_page_info().field_has_next_page()
}

fn page(users: &Vec<User>, after: Option<&str>, first: i32) -> UserConnection {
    let after = after.map(|text| Cursor(text.to_string()));
    Query.field_user_connections(users, after, first).expect("the page is answered")
}

#[test]
fn test_nothing_to_begin_with() {
    let users: Vec<User> = Vec::new();

    let resolved = Query.field_users(&users);

    assert_eq!(resolved.len(), 0);
}

#[test]
fn test_loading_user() {
    let bob = user(1, "Bob", 1);
    let users = vec![bob.clone()];

    let resolved = Query.field_users(&users);

    assert_eq!(resolved.len(), 1);
    assert_eq!(resolved[0].field_id(), ID::new(bob.id.to_string()));
    assert_eq!(resolved[0].field_name(), &bob.name);
}

#[test]
fn test_loading_users_with_countries() {
    let copenhagen = country(1, "Copenhagen");
    let bob = user(1, "Bob", copenhagen.id);
    let users = vec![bob.clone()];
    let countries = vec![copenhagen.clone()];

    let resolved = Query.field_users(&users);

    assert_eq!(resolved.len(), 1);
    assert_eq!(resolved[0].field_id(), ID::new(bob.id.to_string()));
    assert_eq!(resolved[0].field_name(), &bob.name);
    let resolved_country = resolved[0].field_country(&countries).expect("the country is found");
    assert_eq!(resolved_country.field_id(), ID::new(copenhagen.id.to_string()));
    assert_eq!(resolved_country.field_name(), &copenhagen.name);
}

#[test]
fn test_paginating_users() {
    let users = three_users();

    let connection = page(&users, None, 1);
    assert_eq!(edge_cursors(&connection), vec!["2".to_string()]);
    assert_eq!(names(&connection), vec![users[0].name.clone()]);
    assert_eq!(start_cursor(&connection), Some("2".to_string()));
    assert_eq!(end_cursor(&connection), Some("2".to_string()));
    assert_eq!(has_next_page(&connection), true);
    assert_eq!(*connection.field_total_count(), 3);
    let cursor = end_cursor(&connection).unwrap();

    let connection = page(&users, Some(&cursor), 1);
    assert_eq!(edge_cursors(&connection), vec!["3".to_string()]);
    assert_eq!(names(&connection), vec![users[1].name.clone()]);
    assert_eq!(start_cursor(&connection), Some("3".to_string()));
    assert_eq!(end_cursor(&connection), Some("3".to_string()));
    assert_eq!(has_next_page(&connection), true);
    assert_eq!(*connection.field_total_count(), 3);
    let cursor = end_cursor(&connection).unwrap();

    let connection = page(&users, Some(&cursor), 1);
    assert_eq!(edge_cursors(&connection), vec!["4".to_string()]);
    assert_eq!(names(&connection), vec![users[2].name.clone()]);
    assert_eq!(start_cursor(&connection), Some("4".to_string()));
    assert_eq!(end_cursor(&connection), Some("4".to_string()));
    assert_eq!(has_next_page(&connection), false);
    assert_eq!(*connection.field_total_count(), 3);
    let cursor = end_cursor(&connection).unwrap();

    let connection = page(&users, Some(&cursor), 1);
    let edges = connection.field_edges();
    assert_eq!(edges.len(), 0);
}

#[test]
fn test_paginating_users_with_no_users() {
    let users: Vec<User> = Vec::new();

    for first in [0, 1, 10] {
        let connection = page(&users, None, first);
        assert_eq!(connection.field_edges().len(), 0);
        assert_eq!(start_cursor(&connection), None);
        assert_eq!(end_cursor(&connection), None);
        assert_eq!(has_next_page(&connection), false);
        let edges = connection.field_edges();
        assert_eq!(edges.len(), 0);
    }
}

#[test]
fn users_come_ordered_by_primary_key() {
    let users = vec![user(3, "c", 1), user(1, "a", 1), user(2, "b", 1)];

    let resolved = Query.field_users(&users);

    let ids: Vec<i32> = resolved.iter().map(|user| user.id).collect();
    assert_eq!(ids, vec![1, 2, 3]);
    let names: Vec<&str> = resolved.iter().map(|user| user.name.as_str()).collect();
    assert_eq!(names, vec!["a", "b", "c"]);
}

#[test]
fn pages_follow_the_primary_key_not_the_order_of_the_rows() {
    let users = vec![user(3, "3", 1), user(1, "1", 1), user(2, "2", 1)];

    assert_eq!(names(&page(&users, None, 2)), vec!["1".to_string(), "2".to_string()]);
    assert_eq!(names(&page(&users, Some("2"), 2)), vec!["3".to_string()]);
}

#[test]
fn every_page_reports_the_row_count_of_the_table() {
    let users = three_users();

    for first in [0, 1, 2, 3, 50] {
        for after in ["0", "1", "2", "3", "4", "100"] {
            if first > 0 && after == "0" {
                continue;
            }
            let connection = page(&users, Some(after), first);
            assert_eq!(*connection.field_total_count(), 3);
        }
    }
}

#[test]
fn at_one_row_a_page_only_the_last_page_has_no_next() {
    let users = vec![user(1, "a", 1), user(2, "b", 1), user(3, "c", 1), user(4, "d", 1)];

    for number in 1..=4 {
        let connection = page(&users, Some(&number.to_string()), 1);
        assert_eq!(connection.field_edges().len(), 1);
        assert_eq!(connection.field_edges()[0].field_node().id, number);
        assert_eq!(has_next_page(&connection), number < 4);
    }
    let beyond = page(&users, Some("5"), 1);
    assert_eq!(beyond.field_edges().len(), 0);
    assert_eq!(has_next_page(&beyond), false);
}

#[test]
fn with_larger_pages_the_next_page_is_read_off_the_row_at_the_page_number() {
    let users = vec![
        user(1, "a", 1),
        user(2, "b", 1),
        user(3, "c", 1),
        user(4, "d", 1),
        user(5, "e", 1),
    ];

    let first = page(&users, None, 2);
    assert_eq!(names(&first), vec!["a".to_string(), "b".to_string()]);
    assert_eq!(has_next_page(&first), true);
    let second = page(&users, Some("2"), 2);
    assert_eq!(names(&second), vec!["c".to_string(), "d".to_string()]);
    assert_eq!(has_next_page(&second), true);
    let last = page(&users, Some("3"), 2);
    assert_eq!(names(&last), vec!["e".to_string()]);
    assert_eq!(has_next_page(&last), true);
    let beyond = page(&users, Some("4"), 2);
    assert_eq!(beyond.field_edges().len(), 0);
    assert_eq!(has_next_page(&beyond), true);
    let far_beyond = page(&users, Some("5"), 2);
    assert_eq!(far_beyond.field_edges().len(), 0);
    assert_eq!(has_next_page(&far_beyond), false);
}

#[test]
fn every_edge_carries_the_cursor_of_the_next_page() {
    let users = three_users();

    let connection = page(&users, Some("1"), 3);

    assert_eq!(
        edge_cursors(&connection),
        vec!["2".to_string(), "2".to_string(), "2".to_string()]
    );
    assert_eq!(start_cursor(&connection), Some("2".to_string()));
    assert_eq!(end_cursor(&connection), Some("2".to_string()));
}

#[test]
fn a_page_of_no_rows_has_no_cursors() {
    let users = three_users();

    let connection = page(&users, Some("7"), 2);

    assert_eq!(connection.field_edges().len(), 0);
    assert_eq!(start_cursor(&connection), None);
    assert_eq!(end_cursor(&connection), None);
    assert_eq!(*connection.field_total_count(), 3);
}

#[test]
fn a_page_size_of_zero_gives_an_empty_page() {
    let users = three_users();

    let connection = page(&users, None, 0);

    assert_eq!(connection.field_edges().len(), 0);
    assert_eq!(has_next_page(&connection), true);
    assert_eq!(*connection.field_total_count(), 3);
}

#[test]
fn a_negative_page_size_is_refused() {
    let users = three_users();

    let resolved = Query.field_user_connections(&users, None, -1);

    assert_eq!(resolved.err(), Some(QueryError::NegativeLimit));
}

#[test]
fn a_page_before_the_first_is_refused() {
    let users = three_users();

    let resolved = Query.field_user_connections(&users, Some(Cursor("0".to_string())), 1);
    assert_eq!(resolved.err(), Some(QueryError::NegativeOffset));

    let resolved = Query.field_user_connections(&users, Some(Cursor("-3".to_string())), 2);
    assert_eq!(resolved.err(), Some(QueryError::NegativeOffset));
}

#[test]
fn the_look_at_the_next_page_can_be_refused_too() {
    let users = three_users();

    let resolved = Query.field_user_connections(&users, Some(Cursor("-1".to_string())), 0);

    assert_eq!(resolved.err(), Some(QueryError::NegativeOffset));
}

#[test]
fn a_cursor_names_a_page_only_as_a_decimal_integer() {
    assert_eq!(page_number(&None), Some(1));
    assert_eq!(page_number(&Some(Cursor("1".to_string()))), Some(1));
    assert_eq!(page_number(&Some(Cursor("42".to_string()))), Some(42));
    assert_eq!(page_number(&Some(Cursor("+42".to_string()))), Some(42));
    assert_eq!(page_number(&Some(Cursor("-42".to_string()))), Some(-42));
    assert_eq!(page_number(&Some(Cursor("".to_string()))), None);
    assert_eq!(page_number(&Some(Cursor("two".to_string()))), None);
    assert_eq!(page_number(&Some(Cursor("2 ".to_string()))), None);
    assert_eq!(page_number(&Some(Cursor("2.0".to_string()))), None);
}

#[test]
fn a_cursor_that_names_no_page_is_not_accepted() {
    assert!(try_user_connections(Some(Cursor("abc".to_string())), 1).is_none());
    assert!(try_user_connections(Some(Cursor("".to_string())), 1).is_none());
    assert!(try_user_connections(Some(Cursor(i64::MAX.to_string())), 1).is_none());
    assert!(try_user_connections(Some(Cursor("9223372036854775808".to_string())), 1).is_none());
    assert!(try_user_connections(Some(Cursor((i64::MAX - 1).to_string())), 1).is_some());
    assert!(try_user_connections(None, 1).is_some());
}

#[test]
fn the_steps_name_the_two_queries() {
    let (fetch, page_query) = user_connections(Some(Cursor("4".to_string())), 25);
    assert_eq!(page_query.page, 4);
    assert_eq!(page_query.per_page, 25);
    assert_eq!(page_query.limit(), 25);
    assert_eq!(page_query.offset(), Some(75));

    let answer: Result<(Vec<User>, i64), String> =
        Ok((vec![user(76, "x", 1), user(77, "y", 1)], 77));
    let (check, next_page_query) = fetch.loaded(answer).unwrap();
    assert_eq!(next_page_query.page, 5);
    assert_eq!(next_page_query.per_page, 1);
    assert_eq!(next_page_query.limit(), 1);
    assert_eq!(next_page_query.offset(), Some(4));

    let answer: Result<Vec<User>, String> = Ok(vec![user(5, "e", 1)]);
    let connection = check.finish(answer).unwrap();
    assert_eq!(names(&connection), vec!["x".to_string(), "y".to_string()]);
    assert_eq!(edge_cursors(&connection), vec!["5".to_string(), "5".to_string()]);
    assert_eq!(start_cursor(&connection), Some("5".to_string()));
    assert_eq!(end_cursor(&connection), Some("5".to_string()));
    assert_eq!(has_next_page(&connection), true);
    assert_eq!(*connection.field_total_count(), 77);
}

#[test]
fn without_a_cursor_the_first_page_is_asked_for() {
    let (fetch, page_query) = user_connections(None, 3);
    assert_eq!(page_query.page, 1);
    assert_eq!(page_query.per_page, 3);
    assert_eq!(page_query.offset(), Some(0));

    let answer: Result<(Vec<User>, i64), String> = Ok((Vec::new(), 0));
    let (check, next_page_query) = fetch.loaded(answer).unwrap();
    assert_eq!(next_page_query.page, 2);
    assert_eq!(next_page_query.per_page, 1);

    let answer: Result<Vec<User>, String> = Ok(Vec::new());
    let connection = check.finish(answer).unwrap();
    assert_eq!(connection.field_edges().len(), 0);
    assert_eq!(start_cursor(&connection), None);
    assert_eq!(end_cursor(&connection), None);
    assert_eq!(has_next_page(&connection), false);
    assert_eq!(*connection.field_total_count(), 0);
}

#[test]
fn an_error_of_the_first_query_ends_the_resolution() {
    let (fetch, _) = user_connections(None, 3);

    let answer: Result<(Vec<User>, i64), String> = Err("connection lost".to_string());
    let step = fetch.loaded(answer);

    assert_eq!(step.err(), Some("connection lost".to_string()));
}

#[test]
fn an_error_of_the_second_query_ends_the_resolution() {
    let (fetch, _) = user_connections(None, 3);
    let answer: Result<(Vec<User>, i64), String> = Ok((three_users(), 3));
    let (check, _) = fetch.loaded(answer).unwrap();

    let answer: Result<Vec<User>, String> = Err("connection lost".to_string());
    let resolved = check.finish(answer);

    assert_eq!(resolved.err(), Some("connection lost".to_string()));
}

#[test]
fn the_count_is_cut_to_32_bits() {
    let (fetch, _) = user_connections(None, 1);
    let answer: Result<(Vec<User>, i64), String> = Ok((Vec::new(), 4_294_967_299));
    let (check, _) = fetch.loaded(answer).unwrap();
    let connection = check.finish(Ok::<Vec<User>, String>(Vec::new())).unwrap();
    assert_eq!(*connection.field_total_count(), 3);

    let (fetch, _) = user_connections(None, 1);
    let answer: Result<(Vec<User>, i64), String> = Ok((Vec::new(), 2_147_483_648));
    let (check, _) = fetch.loaded(answer).unwrap();
    let connection = check.finish(Ok::<Vec<User>, String>(Vec::new())).unwrap();
    assert_eq!(*connection.field_total_count(), i32::MIN);
}

#[test]
fn the_returned_cursor_is_accepted_again() {
    let users = three_users();
    let mut after: Option<String> = None;
    let mut seen: Vec<String> = Vec::new();

    loop {
        let connection = page(&users, after.as_deref(), 2);
        if connection.field_edges().is_empty() {
            break;
        }
        seen.extend(names(&connection));
        let cursor = end_cursor(&connection).unwrap();
        assert!(page_number(&Some(Cursor(cursor.clone()))).is_some());
        after = Some(cursor);
    }

    assert_eq!(seen, vec!["1".to_string(), "2".to_string(), "3".to_string()]);
}

#[test]
fn a_user_resolves_its_id_and_name() {
    let ada = user(42, "Ada", 7);

    assert_eq!(ada.field_id(), ID::new("42"));
    assert_eq!(&*ada.field_id(), "42");
    assert_eq!(ada.field_name(), "Ada");
    assert_eq!(user(-5, "", 0).field_id(), ID::new("-5"));
    assert_eq!(&*user(i32::MIN, "", 0).field_id(), "-2147483648");
    assert_eq!(&*user(i32::MAX, "", 0).field_id(), "2147483647");
    assert_eq!(&*user(0, "", 0).field_id(), "0");
}

#[test]
fn a_country_resolves_its_id_and_name() {
    let denmark = country(45, "Denmark");

    assert_eq!(denmark.field_id(), ID::new("45"));
    assert_eq!(&*denmark.field_id(), "45");
    assert_eq!(denmark.field_name(), "Denmark");
}

#[test]
fn a_user_resolves_to_the_country_with_its_key() {
    let countries = vec![country(1, "Denmark"), country(2, "Norway"), country(3, "Sweden")];

    let found = user(10, "Liv", 2).field_country(&countries).unwrap();
    assert_eq!(found.id, 2);
    assert_eq!(found.name, "Norway");

    let found = user(11, "Bo", 1).field_country(&countries).unwrap();
    assert_eq!(found.id, 1);
    assert_eq!(found.name, "Denmark");

    let found = user(12, "Siv", 3).field_country(&countries).unwrap();
    assert_eq!(found.id, 3);
    assert_eq!(found.name, "Sweden");
}

#[test]
fn a_user_without_a_country_row_resolves_to_not_found() {
    let countries = vec![country(1, "Denmark"), country(2, "Norway")];

    assert_eq!(user(10, "Liv", 9).field_country(&countries).err(), Some(QueryError::NotFound));
    assert_eq!(user(10, "Liv", 1).field_country(&Vec::new()).err(), Some(QueryError::NotFound));
}

#[test]
fn the_first_row_with_the_key_is_the_country() {
    let countries = vec![country(2, "first"), country(2, "second")];

    let found = user(1, "x", 2).field_country(&countries).unwrap();

    assert_eq!(found.name, "first");
}

#[test]
fn noop_changes_nothing_and_says_true() {
    assert_eq!(Mutation.field_noop(), &true);
}
