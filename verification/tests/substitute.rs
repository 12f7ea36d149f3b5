use graphquery::{build_query_str, ArgumentMap, QueryError};

fn map_of(pairs: &[(&str, &str)]) -> ArgumentMap {
    let mut args = ArgumentMap::new();
    for (key, value) in pairs {
        args.insert(key.to_string(), value.to_string());
    }
    args
}

#[test]
fn empty_map_returns_query_unchanged() {
    let args = ArgumentMap::new();
    assert_eq!(
        build_query_str("query { viewer { login } }", &args),
        Ok("query { viewer { login } }".to_string())
    );
}

#[test]
fn empty_map_keeps_markers_in_place() {
    let args = ArgumentMap::new();
    assert_eq!(build_query_str("query { $x:field }", &args), Ok("query { $x:field }".to_string()));
}

#[test]
fn empty_query_with_empty_map() {
    let args = ArgumentMap::new();
    assert_eq!(build_query_str("", &args), Ok(String::new()));
}

#[test]
fn query_without_markers_is_refused_by_any_entry() {
    let args = map_of(&[("name", "Bob")]);
    assert_eq!(
        build_query_str("query { viewer { login } }", &args),
        Err(QueryError::UnknownArgumentKey)
    );
}

#[test]
fn single_marker_is_replaced() {
    let args = map_of(&[("name", "Bob")]);
    assert_eq!(
        build_query_str("user(name: $x:name)", &args),
        Ok("user(name: Bob)".to_string())
    );
}

#[test]
fn every_occurrence_of_a_marker_is_replaced() {
    let args = map_of(&[("name", "Bob")]);
    assert_eq!(
        build_query_str("$x:name and $x:name, then $x:name", &args),
        Ok("Bob and Bob, then Bob".to_string())
    );
}

#[test]
fn adjacent_markers_are_all_replaced() {
    let args = map_of(&[("a", "1")]);
    assert_eq!(build_query_str("$x:a$x:a$x:a", &args), Ok("111".to_string()));
}

#[test]
fn several_keys_are_all_substituted() {
    let args = map_of(&[("owner", "rust-lang"), ("name", "rust")]);
    assert_eq!(
        build_query_str("repository(owner: $x:owner, name: $x:name)", &args),
        Ok("repository(owner: rust-lang, name: rust)".to_string())
    );
}

#[test]
fn unknown_key_fails() {
    let args = map_of(&[("name", "Bob"), ("age", "7")]);
    assert_eq!(build_query_str("user(name: $x:name)", &args), Err(QueryError::UnknownArgumentKey));
}

#[test]
fn unknown_first_key_fails() {
    let args = map_of(&[("age", "7"), ("name", "Bob")]);
    assert_eq!(build_query_str("user(name: $x:name)", &args), Err(QueryError::UnknownArgumentKey));
}

#[test]
fn key_without_the_marker_prefix_is_not_a_marker() {
    let args = map_of(&[("name", "Bob")]);
    assert_eq!(build_query_str("user(name: name)", &args), Err(QueryError::UnknownArgumentKey));
    assert_eq!(build_query_str("user(name: $name)", &args), Err(QueryError::UnknownArgumentKey));
    assert_eq!(build_query_str("user(name: x:name)", &args), Err(QueryError::UnknownArgumentKey));
}

#[test]
fn value_goes_in_as_it_is() {
    let args = map_of(&[("name", "\"Bob\"\n")]);
    assert_eq!(
        build_query_str("user(name: $x:name)", &args),
        Ok("user(name: \"Bob\"\n)".to_string())
    );
}

#[test]
fn empty_value_removes_the_marker() {
    let args = map_of(&[("gone", "")]);
    assert_eq!(build_query_str("a$x:goneb", &args), Ok("ab".to_string()));
}

#[test]
fn empty_key_stands_for_the_bare_prefix() {
    let args = map_of(&[("", "v")]);
    assert_eq!(build_query_str("a $x: b", &args), Ok("a v b".to_string()));
}

#[test]
fn text_outside_the_basic_plane_is_kept() {
    let args = map_of(&[("who", "wörld 🌍")]);
    assert_eq!(
        build_query_str("héllo $x:who ✓", &args),
        Ok("héllo wörld 🌍 ✓".to_string())
    );
}

#[test]
fn entries_are_substituted_in_their_order() {
    // The value of the first entry brings in the marker of the second.
    let args = map_of(&[("a", "$x:b"), ("b", "c")]);
    assert_eq!(build_query_str("$x:a", &args), Ok("c".to_string()));
    // The other way round, the second marker is not there when its turn comes.
    let args = map_of(&[("b", "c"), ("a", "$x:b")]);
    assert_eq!(build_query_str("$x:a", &args), Err(QueryError::UnknownArgumentKey));
}

#[test]
fn key_that_begins_another_key_takes_its_markers() {
    let args = map_of(&[("a", "1"), ("ab", "2")]);
    assert_eq!(build_query_str("$x:a $x:ab", &args), Err(QueryError::UnknownArgumentKey));
    let args = map_of(&[("ab", "2"), ("a", "1")]);
    assert_eq!(build_query_str("$x:a $x:ab", &args), Ok("1 2".to_string()));
}

#[test]
fn replaced_text_is_not_searched_again() {
    let args = map_of(&[("a", "$x:a!")]);
    assert_eq!(build_query_str("$x:a", &args), Ok("$x:a!".to_string()));
}

#[test]
fn independent_entries_can_change_places() {
    let text = "repository(owner: $x:owner, name: $x:name) { $x:name }";
    let one_way = map_of(&[("owner", "rust-lang"), ("name", "rust")]);
    let other_way = map_of(&[("name", "rust"), ("owner", "rust-lang")]);
    let expected = Ok("repository(owner: rust-lang, name: rust) { rust }".to_string());
    assert_eq!(build_query_str(text, &one_way), expected);
    assert_eq!(build_query_str(text, &other_way), expected);
}

#[test]
fn independent_entries_fail_in_either_order() {
    let text = "repository(owner: $x:owner)";
    let one_way = map_of(&[("owner", "rust-lang"), ("name", "rust")]);
    let other_way = map_of(&[("name", "rust"), ("owner", "rust-lang")]);
    assert_eq!(build_query_str(text, &one_way), Err(QueryError::UnknownArgumentKey));
    assert_eq!(build_query_str(text, &other_way), Err(QueryError::UnknownArgumentKey));
}

#[test]
fn no_marker_is_left_where_the_value_shares_no_character_with_it() {
    let args = map_of(&[("name", "Bob")]);
    let result = build_query_str("$x:na$x:nameme $x:name$x:name", &args).unwrap();
    assert_eq!(result, "$x:naBobme BobBob");
    assert!(!result.contains("$x:name"));
}

#[test]
fn empty_value_can_leave_a_marker_behind() {
    let args = map_of(&[("a", "")]);
    assert_eq!(build_query_str("$x$x:a:a", &args), Ok("$x:a".to_string()));
}
