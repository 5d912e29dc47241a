use skills_web::error::{AppError, ErrorKind};

fn status_and_code(kind: ErrorKind) -> (u16, String) {
    let response = AppError { kind, message: "m".to_string() }.into_response();
    assert!(!response.body.ok);
    assert_eq!(response.body.kind, kind);
    assert_eq!(response.body.message, "m");
    (response.status, response.body.code)
}

#[test]
fn status_goes_by_the_kind() {
    assert_eq!(status_and_code(ErrorKind::NotFound), (404, "notfound".to_string()));
    assert_eq!(status_and_code(ErrorKind::InvalidInput), (400, "invalidinput".to_string()));
    assert_eq!(status_and_code(ErrorKind::TargetConflict), (500, "targetconflict".to_string()));
    assert_eq!(status_and_code(ErrorKind::Cancelled), (500, "cancelled".to_string()));
    assert_eq!(status_and_code(ErrorKind::Database), (500, "database".to_string()));
    assert_eq!(status_and_code(ErrorKind::Io), (500, "io".to_string()));
    assert_eq!(status_and_code(ErrorKind::Internal), (500, "internal".to_string()));
}

#[test]
fn code_is_the_lower_case_name_of_the_kind() {
    let kinds = [
        ErrorKind::NotFound,
        ErrorKind::InvalidInput,
        ErrorKind::TargetConflict,
        ErrorKind::Cancelled,
        ErrorKind::Database,
        ErrorKind::Io,
        ErrorKind::Internal,
    ];
    for kind in kinds {
        assert_eq!(kind.code(), format!("{kind:?}").to_lowercase());
    }
}

#[test]
fn every_status_is_one_for_axum() {
    for kind in [ErrorKind::NotFound, ErrorKind::InvalidInput, ErrorKind::Io] {
        let (status, _) = status_and_code(kind);
        assert_eq!(axum::http::StatusCode::from_u16(status).unwrap().as_u16(), status);
    }
}

#[test]
fn constructors_set_kind_and_message() {
    let cases = [
        (AppError::not_found("a"), ErrorKind::NotFound, "a"),
        (AppError::invalid_input("b"), ErrorKind::InvalidInput, "b"),
        (AppError::db("c"), ErrorKind::Database, "c"),
        (AppError::io("d"), ErrorKind::Io, "d"),
        (AppError::join_error("cancelled"), ErrorKind::Database, "join error: cancelled"),
    ];
    for (error, kind, message) in cases {
        assert_eq!(error.kind, kind);
        assert_eq!(error.message, message);
    }
}
