use rustymon_server::errors::{ErrorResponse, ErrorStatusCode, Errors, SessionErrors};

#[test]
fn status_codes_on_the_wire() {
    assert_eq!(ErrorStatusCode::LoginFailed.code(), 100);
    assert_eq!(ErrorStatusCode::Unauthenticated.code(), 101);
    assert_eq!(ErrorStatusCode::DatabaseError.code(), 500);
    assert_eq!(ErrorStatusCode::InternalServerError.code(), 501);
    assert_eq!(ErrorStatusCode::SessionError.code(), 502);
}

#[test]
fn a_new_error_response_reports_no_success() {
    let response = ErrorResponse::new(ErrorStatusCode::DatabaseError, "gone".to_string());
    assert_eq!(
        response,
        ErrorResponse {
            success: false,
            status_code: ErrorStatusCode::DatabaseError,
            message: "gone".to_string(),
        }
    );
}

#[test]
fn each_failure_has_its_message() {
    assert_eq!(Errors::DatabaseError.message(), "Database error occurred");
    assert_eq!(Errors::HashError.message(), "Internal server error occurred");
    assert_eq!(
        Errors::SessionError(SessionErrors::InsertError).message(),
        "Error while accessing session"
    );
    assert_eq!(
        Errors::SessionError(SessionErrors::GetError).message(),
        "Error while accessing session"
    );
    assert_eq!(Errors::LoginFailed.message(), "Invalid username / password");
    assert_eq!(Errors::Unauthenticated.message(), "Unauthenticated");
}

#[test]
fn each_failure_has_its_response() {
    let cases = [
        (Errors::DatabaseError, ErrorStatusCode::DatabaseError, 500),
        (Errors::HashError, ErrorStatusCode::InternalServerError, 501),
        (Errors::SessionError(SessionErrors::InsertError), ErrorStatusCode::SessionError, 502),
        (Errors::SessionError(SessionErrors::GetError), ErrorStatusCode::SessionError, 502),
        (Errors::LoginFailed, ErrorStatusCode::LoginFailed, 100),
        (Errors::Unauthenticated, ErrorStatusCode::Unauthenticated, 101),
    ];
    for (error, status, number) in cases {
        let response = error.error_response();
        assert!(!response.success);
        assert_eq!(response.status_code, status);
        assert_eq!(response.status_code.code(), number);
        assert_eq!(response.message, error.message());
    }
}
