use graphquery::shell::{parse_extra, parse_extras, plan, Invocation, Plan, QuerySource, Step};
use graphquery::{ArgumentMap, Header, QueryError, Request};

fn invocation() -> Invocation {
    Invocation {
        url: "https://example.com/api/graphql".to_string(),
        token: "secret".to_string(),
        file: None,
        query: None,
        output: None,
        extras: Vec::new(),
    }
}

fn pair(key: &str, value: &str) -> (String, String) {
    (key.to_string(), value.to_string())
}

fn exit_with(error: QueryError) -> Step {
    Step::Exit { stdout: None, error: Some(error) }
}

/// Runs a plan to its end with outside work that is only played: the query
/// file holds `file`, the endpoint answers each request with its own body, and
/// the output file takes what is written if `writable`. Gives back the exit
/// step, the requests that were sent and what was written to the file.
fn run(plan: &Plan, file: Result<String, String>, writable: bool) -> (Step, Vec<Request>, Option<String>) {
    let mut sent = Vec::new();
    let mut written = None;
    let mut step = plan.first_step();
    loop {
        step = match step {
            Step::ReadFile { .. } => plan.after_read(file.clone()),
            Step::Send { request } => {
                let echo = request.body.clone();
                sent.push(request);
                plan.after_send(Some(echo))
            }
            Step::WriteFile { text, .. } => {
                if writable {
                    written = Some(text.clone());
                }
                plan.after_write(text, writable)
            }
            Step::Exit { .. } => return (step, sent, written),
        };
    }
}

#[test]
fn parse_extra_splits_at_the_separator() {
    assert_eq!(parse_extra("field=user"), Ok(pair("field", "user")));
    assert_eq!(parse_extra("k=a b c"), Ok(pair("k", "a b c")));
}

#[test]
fn parse_extra_takes_empty_key_or_value() {
    assert_eq!(parse_extra("field="), Ok(pair("field", "")));
    assert_eq!(parse_extra("=user"), Ok(pair("", "user")));
    assert_eq!(parse_extra("="), Ok(pair("", "")));
}

#[test]
fn parse_extra_refuses_what_has_no_separator() {
    assert_eq!(parse_extra("field"), Err(QueryError::MalformedExtraArgument));
    assert_eq!(parse_extra(""), Err(QueryError::MalformedExtraArgument));
}

#[test]
fn parse_extra_refuses_more_than_one_separator() {
    assert_eq!(parse_extra("a=b=c"), Err(QueryError::MalformedExtraArgument));
    assert_eq!(parse_extra("a=="), Err(QueryError::MalformedExtraArgument));
    assert_eq!(parse_extra("=="), Err(QueryError::MalformedExtraArgument));
}

#[test]
fn parse_extra_keeps_characters_beyond_ascii() {
    assert_eq!(parse_extra("ключ=значение ✓"), Ok(pair("ключ", "значение ✓")));
}

#[test]
fn parse_extras_builds_the_map_in_order() {
    let args = parse_extras(&["b=2".to_string(), "a=1".to_string()]).unwrap();
    assert_eq!(args.len(), 2);
    assert_eq!(args.entry(0), Some((&"b".to_string(), &"2".to_string())));
    assert_eq!(args.entry(1), Some((&"a".to_string(), &"1".to_string())));
}

#[test]
fn parse_extras_of_nothing_is_the_empty_map() {
    assert_eq!(parse_extras(&[]), Ok(ArgumentMap::new()));
}

#[test]
fn parse_extras_lets_the_later_of_two_equal_keys_win() {
    let args = parse_extras(&["a=1".to_string(), "b=2".to_string(), "a=3".to_string()]).unwrap();
    assert_eq!(args.len(), 2);
    assert_eq!(args.get("a"), Some(&"3".to_string()));
    assert_eq!(args.entry(0), Some((&"a".to_string(), &"3".to_string())));
}

#[test]
fn parse_extras_fails_on_one_malformed_argument() {
    assert_eq!(
        parse_extras(&["a=1".to_string(), "b".to_string(), "c=3".to_string()]),
        Err(QueryError::MalformedExtraArgument)
    );
    assert_eq!(parse_extras(&["a=1=2".to_string()]), Err(QueryError::MalformedExtraArgument));
}

#[test]
fn plan_without_query_source_fails() {
    assert_eq!(plan(invocation()), Err(QueryError::QuerySourceMissing));
}

#[test]
fn plan_without_query_source_fails_before_the_extras_are_looked_at() {
    let given = Invocation { extras: vec!["broken".to_string()], ..invocation() };
    assert_eq!(plan(given), Err(QueryError::QuerySourceMissing));
}

#[test]
fn plan_with_malformed_extra_fails() {
    let given = Invocation {
        query: Some("query { $x:field }".to_string()),
        extras: vec!["field".to_string()],
        ..invocation()
    };
    assert_eq!(plan(given), Err(QueryError::MalformedExtraArgument));
}

#[test]
fn plan_prefers_the_literal_query_to_the_file() {
    let given = Invocation {
        query: Some("query { viewer }".to_string()),
        file: Some("query.graphql".to_string()),
        ..invocation()
    };
    let planned = plan(given).unwrap();
    assert_eq!(planned.source, QuerySource::Literal("query { viewer }".to_string()));
}

#[test]
fn plan_keeps_the_values_of_the_invocation() {
    let given = Invocation {
        file: Some("query.graphql".to_string()),
        output: Some("out.json".to_string()),
        extras: vec!["field=user".to_string()],
        ..invocation()
    };
    let planned = plan(given).unwrap();
    assert_eq!(planned.url, "https://example.com/api/graphql");
    assert_eq!(planned.token, "secret");
    assert_eq!(planned.source, QuerySource::File("query.graphql".to_string()));
    assert_eq!(planned.output, Some("out.json".to_string()));
    assert_eq!(planned.args.len(), 1);
    assert_eq!(planned.args.get("field"), Some(&"user".to_string()));
}

#[test]
fn first_step_of_a_literal_query_sends_the_request() {
    let planned = plan(Invocation { query: Some("query { viewer }".to_string()), ..invocation() })
        .unwrap();
    assert_eq!(
        planned.first_step(),
        Step::Send {
            request: Request {
                url: "https://example.com/api/graphql".to_string(),
                headers: vec![
                    Header { name: "User-Agent".to_string(), value: "graphquery".to_string() },
                    Header { name: "Authorization".to_string(), value: "Bearer secret".to_string() },
                    Header {
                        name: "Content-Type".to_string(),
                        value: "application/json".to_string()
                    },
                ],
                body: "{\"query\": \"query { viewer }\"}".to_string(),
            }
        }
    );
}

#[test]
fn first_step_of_a_query_file_reads_it() {
    let planned =
        plan(Invocation { file: Some("query.graphql".to_string()), ..invocation() }).unwrap();
    assert_eq!(planned.first_step(), Step::ReadFile { path: "query.graphql".to_string() });
}

#[test]
fn first_step_with_unknown_key_ends_the_invocation() {
    let planned = plan(Invocation {
        query: Some("query { viewer }".to_string()),
        extras: vec!["field=user".to_string()],
        ..invocation()
    })
    .unwrap();
    assert_eq!(planned.first_step(), exit_with(QueryError::UnknownArgumentKey));
}

#[test]
fn after_read_of_a_failed_read_ends_the_invocation() {
    let planned =
        plan(Invocation { file: Some("query.graphql".to_string()), ..invocation() }).unwrap();
    assert_eq!(
        planned.after_read(Err("No such file or directory".to_string())),
        exit_with(QueryError::FileReadError("No such file or directory".to_string()))
    );
}

#[test]
fn after_read_with_unknown_key_ends_the_invocation() {
    let planned = plan(Invocation {
        file: Some("query.graphql".to_string()),
        extras: vec!["field=user".to_string()],
        ..invocation()
    })
    .unwrap();
    assert_eq!(
        planned.after_read(Ok("query { viewer }".to_string())),
        exit_with(QueryError::UnknownArgumentKey)
    );
}

#[test]
fn after_send_of_a_failed_transport_ends_the_invocation() {
    let planned = plan(Invocation { query: Some("q".to_string()), ..invocation() }).unwrap();
    assert_eq!(planned.after_send(None), exit_with(QueryError::TransportError));
}

#[test]
fn after_send_without_output_file_prints_the_response() {
    let planned = plan(Invocation { query: Some("q".to_string()), ..invocation() }).unwrap();
    assert_eq!(
        planned.after_send(Some("{\"data\": 1}".to_string())),
        Step::Exit { stdout: Some("{\"data\": 1}".to_string()), error: None }
    );
}

#[test]
fn after_send_with_output_file_writes_the_response() {
    let planned = plan(Invocation {
        query: Some("q".to_string()),
        output: Some("out.json".to_string()),
        ..invocation()
    })
    .unwrap();
    assert_eq!(
        planned.after_send(Some("{\"data\": 1}".to_string())),
        Step::WriteFile { path: "out.json".to_string(), text: "{\"data\": 1}".to_string() }
    );
}

#[test]
fn after_write_that_went_well_ends_quietly() {
    let planned = plan(Invocation { query: Some("q".to_string()), ..invocation() }).unwrap();
    assert_eq!(
        planned.after_write("{\"data\": 1}".to_string(), true),
        Step::Exit { stdout: None, error: None }
    );
}

#[test]
fn after_write_that_failed_prints_the_response() {
    let planned = plan(Invocation { query: Some("q".to_string()), ..invocation() }).unwrap();
    assert_eq!(
        planned.after_write("{\"data\": 1}".to_string(), false),
        Step::Exit {
            stdout: Some("{\"data\": 1}".to_string()),
            error: Some(QueryError::OutputWriteError)
        }
    );
}

#[test]
fn end_to_end_literal_query_with_extra_argument() {
    let planned = plan(Invocation {
        query: Some("query { $x:field }".to_string()),
        extras: vec!["field=user".to_string()],
        ..invocation()
    })
    .unwrap();
    let (last, sent, written) = run(&planned, Err("not read".to_string()), true);
    assert_eq!(sent.len(), 1);
    assert_eq!(sent[0].url, "https://example.com/api/graphql");
    assert_eq!(sent[0].body, "{\"query\": \"query { user }\"}");
    assert_eq!(written, None);
    assert_eq!(
        last,
        Step::Exit { stdout: Some("{\"query\": \"query { user }\"}".to_string()), error: None }
    );
}

#[test]
fn end_to_end_query_file_to_output_file() {
    let planned = plan(Invocation {
        file: Some("query.graphql".to_string()),
        output: Some("out.json".to_string()),
        extras: vec!["field=user".to_string()],
        ..invocation()
    })
    .unwrap();
    let (last, sent, written) = run(&planned, Ok("query {\n  $x:field\n}\n".to_string()), true);
    assert_eq!(sent.len(), 1);
    assert_eq!(sent[0].body, "{\"query\": \"query {  user}\"}");
    assert_eq!(written, Some("{\"query\": \"query {  user}\"}".to_string()));
    assert_eq!(last, Step::Exit { stdout: None, error: None });
}

#[test]
fn end_to_end_missing_query_source_sends_nothing() {
    let planned = plan(Invocation { extras: vec!["field=user".to_string()], ..invocation() });
    assert_eq!(planned, Err(QueryError::QuerySourceMissing));
    assert_eq!(QueryError::QuerySourceMissing.exit_code(), -1);
    assert!(QueryError::QuerySourceMissing.is_fatal());
}

#[test]
fn end_to_end_unwritable_output_falls_back_to_standard_output() {
    let planned = plan(Invocation {
        query: Some("query { viewer }".to_string()),
        output: Some("/no/such/directory/out.json".to_string()),
        ..invocation()
    })
    .unwrap();
    let (last, sent, written) = run(&planned, Err("not read".to_string()), false);
    assert_eq!(sent.len(), 1);
    assert_eq!(written, None);
    match last {
        Step::Exit { stdout, error } => {
            assert_eq!(stdout, Some("{\"query\": \"query { viewer }\"}".to_string()));
            assert_eq!(error, Some(QueryError::OutputWriteError));
            assert_eq!(error.unwrap().exit_code(), 0);
        }
        other => panic!("the invocation did not end: {:?}", other),
    }
}

#[test]
fn end_to_end_unreadable_query_file_sends_nothing() {
    let planned =
        plan(Invocation { file: Some("missing.graphql".to_string()), ..invocation() }).unwrap();
    let (last, sent, written) = run(&planned, Err("No such file or directory".to_string()), true);
    assert!(sent.is_empty());
    assert_eq!(written, None);
    assert_eq!(last, exit_with(QueryError::FileReadError("No such file or directory".to_string())));
}

#[test]
fn end_to_end_unknown_key_sends_nothing() {
    let planned = plan(Invocation {
        query: Some("query { viewer }".to_string()),
        extras: vec!["field=user".to_string()],
        ..invocation()
    })
    .unwrap();
    let (last, sent, _) = run(&planned, Err("not read".to_string()), true);
    assert!(sent.is_empty());
    assert_eq!(last, exit_with(QueryError::UnknownArgumentKey));
}
