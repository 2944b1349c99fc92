//! The state of a running installation: the project that was selected and
//! the session that is being recorded.
use vstd::prelude::*;
use crate::error::{GeneralError, GeneralErrorKind, GeneralErrorKindView};
use crate::projects::{
    Project, ProjectView, Theme, ThemeView, is_first_key, project_keys, project_views, theme_keys,
};

verus! {

/// The session that is being recorded: its database id and its theme.
#[derive(Debug)]
pub struct CurrentSession {
    pub session_id: i32,
    pub theme: Theme,
}

impl Clone for CurrentSession {
    fn clone(&self) -> (r: Self)
        ensures
            r.session_id == self.session_id,
            r.theme@ == self.theme@,
    {
        CurrentSession { session_id: self.session_id, theme: self.theme.clone() }
    }
}

/// The selected project and the current session, if any.
#[derive(Debug)]
pub struct SessionState {
    pub current_project: Option<Project>,
    pub current_session: Option<CurrentSession>,
}

/// The value of the selected project, if any.
pub open spec fn project_view(p: Option<Project>) -> Option<ProjectView> {
    match p {
        Some(p) => Some(p@),
        None => None,
    }
}

/// The first project of `projects` with this key, if any.
pub open spec fn first_project_with_key(projects: Seq<ProjectView>, key: Seq<char>) -> Option<
    ProjectView,
> {
    if project_keys(projects).contains(key) {
        Some(projects[choose|i: int| is_first_key(project_keys(projects), key, i)])
    } else {
        None
    }
}

/// The first theme of `project` with this key, if any.
pub open spec fn first_theme_with_key(project: ProjectView, key: Seq<char>) -> Option<ThemeView> {
    if theme_keys(project.themes).contains(key) {
        Some(project.themes[choose|i: int| is_first_key(theme_keys(project.themes), key, i)])
    } else {
        None
    }
}

proof fn lemma_first_key_unique(keys: Seq<Seq<char>>, key: Seq<char>, i: int)
    requires
        is_first_key(keys, key, i),
    ensures
        keys.contains(key),
        (choose|j: int| is_first_key(keys, key, j)) == i,
{
    let j = choose|j: int| is_first_key(keys, key, j);
    assert(is_first_key(keys, key, j));
    if j < i {
        assert(keys[j] == key);
    } else if i < j {
        assert(keys[i] == key);
    }
}

impl SessionState {
    /// No project selected, no session.
    pub fn new() -> (r: SessionState)
        ensures
            r.current_project is None,
            r.current_session is None,
    {
        SessionState { current_project: None, current_session: None }
    }

    /// Selects the first of `projects` with this key; an unknown key is an
    /// `IncorrectProject` error that leaves the state as it was.
    pub fn select_project(&mut self, projects: &Vec<Project>, project_key: String) -> (r: Result<
        (),
        GeneralError,
    >)
        ensures
            r is Ok <==> first_project_with_key(project_views(projects@), project_key@) is Some,
            r is Ok ==> project_view(final(self).current_project) == first_project_with_key(
                project_views(projects@),
                project_key@,
            ),
            r matches Err(e) ==> e.kind@ == GeneralErrorKindView::IncorrectProject(project_key@)
                && e.message@ == Seq::<char>::empty() && final(self).current_project == old(
                self,
            ).current_project,
            final(self).current_session == old(self).current_session,
    {
        match Project::find_by_key(projects, project_key.as_str()) {
            Some(project) => {
                proof {
                    let i = choose|i: int|
                        is_first_key(project_keys(project_views(projects@)), project_key@, i)
                            && project_views(projects@)[i] == project@;
                    lemma_first_key_unique(project_keys(project_views(projects@)), project_key@, i);
                }
                self.current_project = Some(project);
                Ok(())
            },
            None => Err(
                GeneralError {
                    kind: GeneralErrorKind::IncorrectProject(project_key),
                    message: String::new(),
                },
            ),
        }
    }

    /// What a new session is recorded under: the selected project's key and
    /// its first theme with this key. Fails when no project is selected, or
    /// when the project has no such theme.
    pub fn session_theme(&self, theme_key: &str) -> (r: Result<(String, Theme), String>)
        ensures
            self.current_project is None ==> (r matches Err(m) && m@
                == "Please select a project first"@),
            self.current_project matches Some(p) ==> match first_theme_with_key(p@, theme_key@) {
                Some(t) => (r matches Ok((k, theme)) && k@ == p@.key && theme@ == t),
                None => (r matches Err(m) && m@ == "Could not find theme with this code!"@),
            },
    {
        match &self.current_project {
            None => Err(String::from_str("Please select a project first")),
            Some(project) => match project.find_theme_by_key(theme_key) {
                Some(theme) => {
                    proof {
                        let i = choose|i: int|
                            is_first_key(theme_keys(project@.themes), theme_key@, i)
                                && project@.themes[i] == theme@;
                        lemma_first_key_unique(theme_keys(project@.themes), theme_key@, i);
                    }
                    Ok((project.key.clone(), theme))
                },
                None => Err(String::from_str("Could not find theme with this code!")),
            },
        }
    }

    /// Records that the session `session_id` has started on `theme`.
    pub fn begin_session(&mut self, session_id: i32, theme: Theme)
        ensures
            final(self).current_session == Some(CurrentSession { session_id, theme }),
            final(self).current_project == old(self).current_project,
    {
        self.current_session = Some(CurrentSession { session_id, theme });
    }

    /// The id of the current session; an error when no session runs.
    pub fn current_session_id(&self) -> (r: Result<i32, String>)
        ensures
            self.current_session matches Some(s) ==> r == Ok::<i32, String>(s.session_id),
            self.current_session is None ==> (r matches Err(m) && m@ == "No current session"@),
    {
        match &self.current_session {
            Some(s) => Ok(s.session_id),
            None => Err(String::from_str("No current session")),
        }
    }
}

} // verus!
