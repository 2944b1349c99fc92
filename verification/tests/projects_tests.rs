use circles::projects::{Project, Question, QuestionOption, Theme, TranslatedProperty};

fn text(en: &str) -> TranslatedProperty {
    TranslatedProperty { nl: None, sl: None, po: None, en: Some(en.to_string()) }
}

fn option(key: &str) -> QuestionOption {
    QuestionOption { key: key.to_string(), value: text(key), correct: None }
}

fn question(key: &str, options: Option<Vec<QuestionOption>>) -> Question {
    Question {
        title: text(key),
        explanation: None,
        question_type: None,
        key: key.to_string(),
        options,
    }
}

fn theme(key: &str, questions: Vec<Question>) -> Theme {
    Theme { key: key.to_string(), name: text(key), questions }
}

fn project(key: &str, themes: Vec<Theme>) -> Project {
    Project {
        key: key.to_string(),
        themes,
        name: text(key),
        available_languages: vec!["en".to_string()],
    }
}

/// The projects that the installation ships, as far as these tests need
/// them: the `test` project with one theme of five questions.
fn shipped_projects() -> Vec<Project> {
    vec![
        project("other", vec![theme("theme-two", vec![])]),
        project(
            "test",
            vec![theme(
                "theme-one",
                vec![
                    question("question-one", Some(vec![option("option-1")])),
                    question("question-two", Some(vec![option("a"), option("b")])),
                    question("question-three", None),
                    question("question-four", Some(vec![])),
                    question("question-five", Some(vec![option("c")])),
                ],
            )],
        ),
    ]
}

#[test]
fn should_be_able_to_find_project_by_key() {
    let project = Project::find_by_key(&shipped_projects(), "test");

    assert!(project.is_some());
    assert_eq!(project.unwrap().key, "test");
}

#[test]
fn unknown_project_key_finds_nothing() {
    assert!(Project::find_by_key(&shipped_projects(), "faulty-project").is_none());
    assert!(Project::find_by_key(&vec![], "test").is_none());
}

#[test]
fn first_project_with_a_key_wins() {
    let mut projects = shipped_projects();
    projects.push(project("test", vec![]));
    let found = Project::find_by_key(&projects, "test").unwrap();
    assert_eq!(found.themes.len(), 1);
}

#[test]
fn themes_questions_and_options_are_found_by_key() {
    let p = Project::find_by_key(&shipped_projects(), "test").unwrap();
    let t = p.find_theme_by_key("theme-one").unwrap();
    assert_eq!(t.questions.len(), 5);
    assert!(p.find_theme_by_key("theme-zero").is_none());
    let q = t.find_question_by_key("question-two").unwrap();
    assert_eq!(q.key, "question-two");
    assert!(t.find_question_by_key("nope").is_none());
    assert_eq!(q.find_option_by_antenna_index(1).unwrap().key, "a");
    assert_eq!(q.find_option_by_antenna_index(2).unwrap().key, "b");
    assert!(q.find_option_by_antenna_index(3).is_none());
    let q3 = t.find_question_by_key("question-three").unwrap();
    assert!(q3.find_option_by_antenna_index(1).is_none());
    assert!(q3.find_option_by_antenna_index(0).is_none());
}

#[test]
fn translations_by_language_code() {
    let t = TranslatedProperty {
        nl: Some("hallo".to_string()),
        sl: None,
        po: Some("ola".to_string()),
        en: Some("hello".to_string()),
    };
    assert_eq!(t.get("nl").unwrap(), "hallo");
    assert!(t.get("sl").is_none());
    assert_eq!(t.get("po").unwrap(), "ola");
    assert_eq!(t.get("en").unwrap(), "hello");
    assert!(t.get("fr").is_none());
    assert!(t.get("").is_none());
}

#[test]
fn cloned_projects_keep_their_content() {
    let p = shipped_projects().remove(1);
    let c = p.clone();
    assert_eq!(c.key, p.key);
    assert_eq!(c.available_languages, p.available_languages);
    assert_eq!(c.themes[0].questions[1].options.as_ref().unwrap()[1].key, "b");
}
