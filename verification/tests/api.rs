use linear_tui::api::{
    judge, operation_name, ApiError, Extensions, GraphQLError, Reply, StaticCredentials,
};

fn error(message: &str, code: Option<&str>) -> GraphQLError {
    GraphQLError {
        message: message.into(),
        extensions: Some(Extensions { code: code.map(Into::into) }),
    }
}

#[test]
fn operation_names_are_read_from_the_query() {
    assert_eq!(operation_name("query Teams { teams }"), "Teams");
    assert_eq!(operation_name("query TeamIssues($x: Int) {}"), "TeamIssues");
    assert_eq!(
        operation_name("mutation UpdateIssue($id: String!)"),
        "UpdateIssue"
    );
    assert_eq!(operation_name("query { viewer { id } }"), "anonymous");
}

#[test]
fn a_query_of_one_word_is_anonymous() {
    assert_eq!(operation_name("query"), "anonymous");
    assert_eq!(operation_name(""), "anonymous");
    assert_eq!(operation_name("query Me{viewer}"), "Me");
}

#[test]
fn error_codes_decide_the_kind_of_error() {
    let auth = ApiError::from_graphql(
        vec![error("a", None), error("b", Some("AUTHENTICATION_ERROR"))],
        None,
    );
    assert_eq!(auth, ApiError::Unauthorized);
    let limited = ApiError::from_graphql(vec![error("slow down", Some("RATELIMITED"))], Some(30));
    assert_eq!(limited, ApiError::RateLimited { retry_after: Some(30) });
    let plain = vec![error("bad field", None), error("worse", Some("OTHER"))];
    assert_eq!(
        ApiError::from_graphql(plain.clone(), None),
        ApiError::GraphQL(plain.clone())
    );
    assert_eq!(
        ApiError::GraphQL(plain).message(),
        "GraphQL errors: bad field, worse"
    );
    assert_eq!(error("x", Some("RATELIMITED")).code(), Some("RATELIMITED"));
    assert_eq!(GraphQLError { message: "x".into(), extensions: None }.code(), None);
}

#[test]
fn each_error_says_what_went_wrong() {
    assert_eq!(
        ApiError::RateLimited { retry_after: Some(0) }.message(),
        "Linear is rate limiting requests; try again in 1s"
    );
    assert_eq!(
        ApiError::RateLimited { retry_after: None }.message(),
        "Linear is rate limiting requests; try again shortly"
    );
    assert_eq!(
        ApiError::Http { status: "500 Internal Server Error".into(), body: "oops".into() }
            .message(),
        "API error (500 Internal Server Error): oops"
    );
    assert_eq!(
        ApiError::Unauthorized.message(),
        "Linear rejected the credentials. Run `linear-tui auth login` to sign in again."
    );
    assert_eq!(ApiError::Rejected("Could not update the issue").message(), "Could not update the issue");
    assert_eq!(
        ApiError::Decode("no data in the response".into()).message(),
        "unexpected response from Linear: no data in the response"
    );
}

#[test]
fn answers_are_judged_status_first_then_errors_then_data() {
    let data = Some(Reply { errors: None, has_data: true });
    assert_eq!(judge(401, "401".into(), None, String::new(), data.clone()), Some(ApiError::Unauthorized));
    assert_eq!(
        judge(429, "429".into(), Some(5), String::new(), None),
        Some(ApiError::RateLimited { retry_after: Some(5) })
    );
    let errors = Some(Reply { errors: Some(vec![error("nope", None)]), has_data: false });
    assert_eq!(
        judge(400, "400 Bad Request".into(), None, "{}".into(), errors),
        Some(ApiError::GraphQL(vec![error("nope", None)]))
    );
    assert_eq!(
        judge(502, "502 Bad Gateway".into(), None, "<html>".into(), None),
        Some(ApiError::Http { status: "502 Bad Gateway".into(), body: "<html>".into() })
    );
    assert_eq!(judge(200, "200 OK".into(), None, "{}".into(), data), None);
    assert_eq!(
        judge(200, "200 OK".into(), None, "{}".into(), Some(Reply { errors: Some(vec![]), has_data: false })),
        Some(ApiError::Decode("no data in the response".into()))
    );
    assert_eq!(
        judge(200, "200 OK".into(), None, "not json".into(), None),
        Some(ApiError::Decode("the response is not JSON".into()))
    );
}

#[test]
fn a_static_header_is_never_refreshed() {
    let credentials = StaticCredentials("lin_api_test".into());
    assert_eq!(credentials.authorization(), "lin_api_test");
    assert!(!credentials.refresh("lin_api_test"));
}
