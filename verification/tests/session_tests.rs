use circles::error::{CirclesError, CirclesErrorType, GeneralError, GeneralErrorKind};
use circles::projects::{Project, Theme, TranslatedProperty};
use circles::reader::{ReaderError, ReaderErrorKind};
use circles::session::SessionState;

fn text(en: &str) -> TranslatedProperty {
    TranslatedProperty { nl: None, sl: None, po: None, en: Some(en.to_string()) }
}

fn projects() -> Vec<Project> {
    vec![Project {
        key: "test".to_string(),
        themes: vec![Theme { key: "theme-one".to_string(), name: text("one"), questions: vec![] }],
        name: text("Test"),
        available_languages: vec![],
    }]
}

#[test]
fn should_return_okay_if_project_exists() {
    let mut state = SessionState::new();

    assert!(state.select_project(&projects(), "test".to_string()).is_ok())
}

#[test]
fn should_err_if_project_does_not_exist() {
    let mut state = SessionState::new();

    assert!(state.select_project(&projects(), "faulty-project".to_string()).is_err())
}

#[test]
fn should_return_session_id_if_theme_exists() {
    let mut state = SessionState::new();
    state.select_project(&projects(), "test".to_string()).unwrap();

    assert!(state.session_theme("theme-one").is_ok())
}

#[test]
fn should_err_if_theme_does_not_exist() {
    let mut state = SessionState::new();
    state.select_project(&projects(), "test".to_string()).unwrap();

    assert!(state.session_theme("theme-zero").is_err())
}

#[test]
fn should_err_if_starting_session_before_project() {
    let state = SessionState::new();

    assert!(state.session_theme("theme-one").is_err())
}

#[test]
fn session_errors_say_what_is_missing() {
    let mut state = SessionState::new();
    assert_eq!(state.session_theme("theme-one").unwrap_err(), "Please select a project first");
    assert_eq!(state.current_session_id().unwrap_err(), "No current session");
    let err = state.select_project(&projects(), "nope".to_string()).unwrap_err();
    assert!(err.kind == GeneralErrorKind::IncorrectProject("nope".to_string()));
    assert_eq!(err.message, "");
    assert!(state.current_project.is_none());
    state.select_project(&projects(), "test".to_string()).unwrap();
    assert_eq!(state.session_theme("x").unwrap_err(), "Could not find theme with this code!");
}

#[test]
fn a_started_session_is_recorded() {
    let mut state = SessionState::new();
    state.select_project(&projects(), "test".to_string()).unwrap();
    let (project_key, theme) = state.session_theme("theme-one").unwrap();
    assert_eq!(project_key, "test");
    state.begin_session(7, theme);
    assert_eq!(state.current_session_id().unwrap(), 7);
    assert_eq!(state.current_session.as_ref().unwrap().theme.key, "theme-one");
    assert_eq!(state.current_project.as_ref().unwrap().key, "test");
}

#[test]
fn general_error_texts_and_frontend_form() {
    let e = GeneralError {
        kind: GeneralErrorKind::IncorrectProject("p".to_string()),
        message: String::new(),
    };
    assert_eq!(e.to_string(), "Could not find project p");
    let c = CirclesError::from_general_error(e);
    assert!(c.error_type == CirclesErrorType::GeneralError);
    assert_eq!(c.kind, "IncorrectProject");
    let e = GeneralError { kind: GeneralErrorKind::Unknown, message: "m".to_string() };
    assert_eq!(e.to_string(), "Encountered an unexpected error. Message: m");
    assert_eq!(e.kind.to_string(), "Unknown");
    let c = CirclesError::from_reader_error(ReaderError {
        kind: ReaderErrorKind::LostConnection,
        message: String::new(),
    });
    assert!(c.error_type == CirclesErrorType::ReaderError);
    assert_eq!(c.kind, "LostConnection");
    assert_eq!(c.message, "");
}
