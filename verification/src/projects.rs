//! Projects: the polls that the installation runs, each with themes, whose
//! questions offer options, one per antenna. Texts come in several
//! languages.
use vstd::prelude::*;
use crate::text::str_equal;

verus! {

/// A text in the languages of the installation.
#[derive(Debug)]
pub struct TranslatedProperty {
    pub nl: Option<String>,
    pub sl: Option<String>,
    pub po: Option<String>,
    pub en: Option<String>,
}

/// The value of an optional text.
pub open spec fn opt_text(o: Option<String>) -> Option<Seq<char>> {
    match o {
        Some(s) => Some(s@),
        None => None,
    }
}

/// The mathematical value of a [`TranslatedProperty`].
pub struct TranslatedPropertyView {
    pub nl: Option<Seq<char>>,
    pub sl: Option<Seq<char>>,
    pub po: Option<Seq<char>>,
    pub en: Option<Seq<char>>,
}

impl View for TranslatedProperty {
    type V = TranslatedPropertyView;

    open spec fn view(&self) -> TranslatedPropertyView {
        TranslatedPropertyView {
            nl: opt_text(self.nl),
            sl: opt_text(self.sl),
            po: opt_text(self.po),
            en: opt_text(self.en),
        }
    }
}

fn clone_opt_text(o: &Option<String>) -> (r: Option<String>)
    ensures
        opt_text(r) == opt_text(*o),
{
    match o {
        Some(s) => Some(s.clone()),
        None => None,
    }
}

impl Clone for TranslatedProperty {
    fn clone(&self) -> (r: Self)
        ensures
            r@ == self@,
    {
        TranslatedProperty {
            nl: clone_opt_text(&self.nl),
            sl: clone_opt_text(&self.sl),
            po: clone_opt_text(&self.po),
            en: clone_opt_text(&self.en),
        }
    }
}

/// The text in a language: `nl`, `sl`, `po` or `en`; none for another.
pub open spec fn translation(t: TranslatedPropertyView, language: Seq<char>) -> Option<Seq<char>> {
    if language == "nl"@ {
        t.nl
    } else if language == "sl"@ {
        t.sl
    } else if language == "po"@ {
        t.po
    } else if language == "en"@ {
        t.en
    } else {
        None
    }
}

impl TranslatedProperty {
    /// The text in `language`, if the property has one.
    pub fn get(&self, language: &str) -> (r: Option<String>)
        ensures
            opt_text(r) == translation(self@, language@),
    {
        if str_equal(language, "nl") {
            clone_opt_text(&self.nl)
        } else if str_equal(language, "sl") {
            clone_opt_text(&self.sl)
        } else if str_equal(language, "po") {
            clone_opt_text(&self.po)
        } else if str_equal(language, "en") {
            clone_opt_text(&self.en)
        } else {
            None
        }
    }
}

/// An answer that a question offers.
#[derive(Debug)]
pub struct QuestionOption {
    pub key: String,
    pub value: TranslatedProperty,
    pub correct: Option<bool>,
}

/// The mathematical value of a [`QuestionOption`].
pub struct QuestionOptionView {
    pub key: Seq<char>,
    pub value: TranslatedPropertyView,
    pub correct: Option<bool>,
}

impl View for QuestionOption {
    type V = QuestionOptionView;

    open spec fn view(&self) -> QuestionOptionView {
        QuestionOptionView { key: self.key@, value: self.value@, correct: self.correct }
    }
}

impl Clone for QuestionOption {
    fn clone(&self) -> (r: Self)
        ensures
            r@ == self@,
    {
        QuestionOption { key: self.key.clone(), value: self.value.clone(), correct: self.correct }
    }
}

/// A question of a theme; its options, in antenna order.
#[derive(Debug)]
pub struct Question {
    pub title: TranslatedProperty,
    pub explanation: Option<TranslatedProperty>,
    pub question_type: Option<String>,
    pub key: String,
    pub options: Option<Vec<QuestionOption>>,
}

/// The mathematical value of a [`Question`].
pub struct QuestionView {
    pub title: TranslatedPropertyView,
    pub explanation: Option<TranslatedPropertyView>,
    pub question_type: Option<Seq<char>>,
    pub key: Seq<char>,
    pub options: Option<Seq<QuestionOptionView>>,
}

/// The values of a list of options.
pub open spec fn option_views(v: Seq<QuestionOption>) -> Seq<QuestionOptionView> {
    v.map_values(|o: QuestionOption| o@)
}

impl View for Question {
    type V = QuestionView;

    open spec fn view(&self) -> QuestionView {
        QuestionView {
            title: self.title@,
            explanation: match self.explanation {
                Some(e) => Some(e@),
                None => None,
            },
            question_type: opt_text(self.question_type),
            key: self.key@,
            options: match self.options {
                Some(o) => Some(option_views(o@)),
                None => None,
            },
        }
    }
}

fn clone_options(v: &Vec<QuestionOption>) -> (r: Vec<QuestionOption>)
    ensures
        option_views(r@) == option_views(v@),
{
    let mut r: Vec<QuestionOption> = Vec::new();
    let mut i: usize = 0;
    while i < v.len()
        invariant
            i <= v@.len(),
            option_views(r@) == option_views(v@).take(i as int),
        decreases v@.len() - i,
    {
        let o = v[i].clone();
        let ghost before = r@;
        r.push(o);
        assert(option_views(r@) =~= option_views(before).push(o@));
        assert(option_views(v@).take(i + 1) =~= option_views(v@).take(i as int).push(v@[i as int]@));
        i = i + 1;
    }
    assert(option_views(v@).take(v@.len() as int) =~= option_views(v@));
    r
}

impl Clone for Question {
    fn clone(&self) -> (r: Self)
        ensures
            r@ == self@,
    {
        let explanation = match &self.explanation {
            Some(e) => Some(e.clone()),
            None => None,
        };
        let options = match &self.options {
            Some(o) => Some(clone_options(o)),
            None => None,
        };
        Question {
            title: self.title.clone(),
            explanation,
            question_type: clone_opt_text(&self.question_type),
            key: self.key.clone(),
            options,
        }
    }
}

/// The option at a 1-based antenna number, if the question has one there.
pub open spec fn option_at_antenna(q: QuestionView, index: int) -> Option<QuestionOptionView> {
    match q.options {
        Some(opts) => if 1 <= index <= opts.len() {
            Some(opts[index - 1])
        } else {
            None
        },
        None => None,
    }
}

/// Antennas are numbered from 1: antenna `index` stands for the option at
/// position `index - 1`, for every antenna up to the number of options; a
/// question without options, antenna 0, and an antenna beyond the options
/// stand for none.
pub proof fn lemma_antenna_picks_its_option(q: QuestionView, index: int)
    ensures
        q.options is Some && 1 <= index <= q.options->0.len() ==> option_at_antenna(q, index)
            == Some(q.options->0[index - 1]),
        option_at_antenna(q, index) is None <==> (q.options is None || index < 1 || index
            > q.options->0.len()),
        option_at_antenna(q, index) matches Some(o) ==> q.options->0.contains(o),
{
    if let Some(opts) = q.options {
        if 1 <= index <= opts.len() {
            assert(opts.contains(opts[index - 1]));
        }
    }
}

impl Question {
    /// The option that the antenna with number `index` stands for; the
    /// antennas are numbered from 1. A question without options has none for
    /// any number, 0 included.
    pub fn find_option_by_antenna_index(&self, index: usize) -> (r: Option<QuestionOption>)
        requires
            index >= 1 || self.options is None,
        ensures
            r matches Some(o) ==> option_at_antenna(self@, index as int) == Some(o@),
            r is None <==> option_at_antenna(self@, index as int) is None,
            self@.options is Some && 1 <= index <= self@.options->0.len() ==> (r matches Some(o)
                && o@ == self@.options->0[index - 1]),
            r is None <==> (self@.options is None || index < 1 || index > self@.options->0.len()),
    {
        match &self.options {
            Some(opts) => {
                if index - 1 < opts.len() {
                    Some(opts[index - 1].clone())
                } else {
                    None
                }
            },
            None => None,
        }
    }
}

/// A theme of a project: a list of questions.
#[derive(Debug)]
pub struct Theme {
    pub key: String,
    pub name: TranslatedProperty,
    pub questions: Vec<Question>,
}

/// The mathematical value of a [`Theme`].
pub struct ThemeView {
    pub key: Seq<char>,
    pub name: TranslatedPropertyView,
    pub questions: Seq<QuestionView>,
}

/// The values of a list of questions.
pub open spec fn question_views(v: Seq<Question>) -> Seq<QuestionView> {
    v.map_values(|q: Question| q@)
}

impl View for Theme {
    type V = ThemeView;

    open spec fn view(&self) -> ThemeView {
        ThemeView { key: self.key@, name: self.name@, questions: question_views(self.questions@) }
    }
}

fn clone_questions(v: &Vec<Question>) -> (r: Vec<Question>)
    ensures
        question_views(r@) == question_views(v@),
{
    let mut r: Vec<Question> = Vec::new();
    let mut i: usize = 0;
    while i < v.len()
        invariant
            i <= v@.len(),
            question_views(r@) == question_views(v@).take(i as int),
        decreases v@.len() - i,
    {
        let q = v[i].clone();
        let ghost before = r@;
        r.push(q);
        assert(question_views(r@) =~= question_views(before).push(q@));
        assert(question_views(v@).take(i + 1) =~= question_views(v@).take(i as int).push(
            v@[i as int]@,
        ));
        i = i + 1;
    }
    assert(question_views(v@).take(v@.len() as int) =~= question_views(v@));
    r
}

impl Clone for Theme {
    fn clone(&self) -> (r: Self)
        ensures
            r@ == self@,
    {
        Theme {
            key: self.key.clone(),
            name: self.name.clone(),
            questions: clone_questions(&self.questions),
        }
    }
}

/// Whether the element at `i` is the first of `keys` equal to `key`.
pub open spec fn is_first_key(keys: Seq<Seq<char>>, key: Seq<char>, i: int) -> bool {
    &&& 0 <= i < keys.len()
    &&& keys[i] == key
    &&& forall|j: int| 0 <= j < i ==> keys[j] != key
}

/// The keys of a list of questions.
pub open spec fn question_keys(v: Seq<QuestionView>) -> Seq<Seq<char>> {
    v.map_values(|q: QuestionView| q.key)
}

impl Theme {
    /// The first question of the theme with this key.
    pub fn find_question_by_key(&self, key: &str) -> (r: Option<Question>)
        ensures
            r matches Some(q) ==> exists|i: int|
                is_first_key(question_keys(self@.questions), key@, i) && self@.questions[i] == q@,
            r is None ==> !question_keys(self@.questions).contains(key@),
    {
        let mut i: usize = 0;
        while i < self.questions.len()
            invariant
                i <= self.questions@.len(),
                forall|j: int| 0 <= j < i ==> question_keys(self@.questions)[j] != key@,
            decreases self.questions@.len() - i,
        {
            if str_equal(self.questions[i].key.as_str(), key) {
                let q = self.questions[i].clone();
                assert(is_first_key(question_keys(self@.questions), key@, i as int));
                return Some(q);
            }
            i = i + 1;
        }
        None
    }
}

/// A poll of the installation: its themes and the languages it offers.
#[derive(Debug)]
pub struct Project {
    pub key: String,
    pub themes: Vec<Theme>,
    pub name: TranslatedProperty,
    pub available_languages: Vec<String>,
}

/// The mathematical value of a [`Project`].
pub struct ProjectView {
    pub key: Seq<char>,
    pub themes: Seq<ThemeView>,
    pub name: TranslatedPropertyView,
    pub available_languages: Seq<Seq<char>>,
}

/// The values of a list of themes.
pub open spec fn theme_views(v: Seq<Theme>) -> Seq<ThemeView> {
    v.map_values(|t: Theme| t@)
}

/// The values of a list of texts.
pub open spec fn text_views(v: Seq<String>) -> Seq<Seq<char>> {
    v.map_values(|s: String| s@)
}

impl View for Project {
    type V = ProjectView;

    open spec fn view(&self) -> ProjectView {
        ProjectView {
            key: self.key@,
            themes: theme_views(self.themes@),
            name: self.name@,
            available_languages: text_views(self.available_languages@),
        }
    }
}

fn clone_themes(v: &Vec<Theme>) -> (r: Vec<Theme>)
    ensures
        theme_views(r@) == theme_views(v@),
{
    let mut r: Vec<Theme> = Vec::new();
    let mut i: usize = 0;
    while i < v.len()
        invariant
            i <= v@.len(),
            theme_views(r@) == theme_views(v@).take(i as int),
        decreases v@.len() - i,
    {
        let t = v[i].clone();
        let ghost before = r@;
        r.push(t);
        assert(theme_views(r@) =~= theme_views(before).push(t@));
        assert(theme_views(v@).take(i + 1) =~= theme_views(v@).take(i as int).push(v@[i as int]@));
        i = i + 1;
    }
    assert(theme_views(v@).take(v@.len() as int) =~= theme_views(v@));
    r
}

fn clone_texts(v: &Vec<String>) -> (r: Vec<String>)
    ensures
        text_views(r@) == text_views(v@),
{
    let mut r: Vec<String> = Vec::new();
    let mut i: usize = 0;
    while i < v.len()
        invariant
            i <= v@.len(),
            text_views(r@) == text_views(v@).take(i as int),
        decreases v@.len() - i,
    {
        let t = v[i].clone();
        let ghost before = r@;
        r.push(t);
        assert(text_views(r@) =~= text_views(before).push(t@));
        assert(text_views(v@).take(i + 1) =~= text_views(v@).take(i as int).push(v@[i as int]@));
        i = i + 1;
    }
    assert(text_views(v@).take(v@.len() as int) =~= text_views(v@));
    r
}

impl Clone for Project {
    fn clone(&self) -> (r: Self)
        ensures
            r@ == self@,
    {
        Project {
            key: self.key.clone(),
            themes: clone_themes(&self.themes),
            name: self.name.clone(),
            available_languages: clone_texts(&self.available_languages),
        }
    }
}

/// The keys of a list of themes.
pub open spec fn theme_keys(v: Seq<ThemeView>) -> Seq<Seq<char>> {
    v.map_values(|t: ThemeView| t.key)
}

/// The values of a list of projects.
pub open spec fn project_views(v: Seq<Project>) -> Seq<ProjectView> {
    v.map_values(|p: Project| p@)
}

/// The keys of a list of projects.
pub open spec fn project_keys(v: Seq<ProjectView>) -> Seq<Seq<char>> {
    v.map_values(|p: ProjectView| p.key)
}

impl Project {
    /// The first of `projects` with this key.
    pub fn find_by_key(projects: &Vec<Project>, project_key: &str) -> (r: Option<Project>)
        ensures
            r matches Some(p) ==> exists|i: int|
                is_first_key(project_keys(project_views(projects@)), project_key@, i)
                    && project_views(projects@)[i] == p@,
            r is None ==> !project_keys(project_views(projects@)).contains(project_key@),
    {
        let mut i: usize = 0;
        while i < projects.len()
            invariant
                i <= projects@.len(),
                forall|j: int|
                    0 <= j < i ==> project_keys(project_views(projects@))[j] != project_key@,
            decreases projects@.len() - i,
        {
            if str_equal(projects[i].key.as_str(), project_key) {
                let p = projects[i].clone();
                assert(is_first_key(project_keys(project_views(projects@)), project_key@, i as int));
                return Some(p);
            }
            i = i + 1;
        }
        None
    }

    /// The first theme of the project with this key.
    pub fn find_theme_by_key(&self, key: &str) -> (r: Option<Theme>)
        ensures
            r matches Some(t) ==> exists|i: int|
                is_first_key(theme_keys(self@.themes), key@, i) && self@.themes[i] == t@,
            r is None ==> !theme_keys(self@.themes).contains(key@),
    {
        let mut i: usize = 0;
        while i < self.themes.len()
            invariant
                i <= self.themes@.len(),
                forall|j: int| 0 <= j < i ==> theme_keys(self@.themes)[j] != key@,
            decreases self.themes@.len() - i,
        {
            if str_equal(self.themes[i].key.as_str(), key) {
                let t = self.themes[i].clone();
                assert(is_first_key(theme_keys(self@.themes), key@, i as int));
                return Some(t);
            }
            i = i + 1;
        }
        None
    }
}

} // verus!
