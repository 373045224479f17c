//! The inspection pass over an unpacked submission: two advisory checks, each
//! reported file by file, and the list of files the grader reviews.

use vstd::prelude::*;
use crate::error::GraderError;
use crate::model::{DownloadedSubmission, FileRecord, FileView};
use crate::text::{contains, family_name, family_name_of, is_substring, lowercase, to_lowercase};

verus! {

/// The pattern that tells source, build and readme-like files by their
/// lowercase name.
pub const NAME_PATTERN: &'static str = "(readme)|(\\.c)|(\\.h)|(makefile)|(.h)";

/// What the lowercase name of a readme holds.
pub const README_MARKER: &'static str = "readme";

/// The sentence a readme must hold, in lowercase.
pub const README_DISCLAIMER: &'static str =
    "by submitting this file to carmen, i certify that i have performed all";

#[verifier::external_type_specification]
#[verifier::external_body]
pub struct ExRegex(regex::Regex);

#[verifier::external_type_specification]
#[verifier::external_body]
pub struct ExRegexError(regex::Error);

/// The pattern a compiled regex was made from, as `Regex::as_str` returns it.
pub uninterp spec fn regex_source(re: regex::Regex) -> Seq<char>;

/// Whether the regex made from `pattern` has a match anywhere in `haystack`,
/// as `Regex::is_match` decides it.
pub uninterp spec fn regex_finds(pattern: Seq<char>, haystack: Seq<char>) -> bool;

/// `regex::Regex::new`: compiles `pattern`, or fails on a pattern that is
/// invalid or too big. A regex that comes back was made from `pattern`;
/// nothing is claimed of when one comes back.
#[verifier::external_body]
fn regex_new(pattern: &str) -> (compiled: Result<regex::Regex, regex::Error>)
    ensures
        compiled matches Ok(re) ==> regex_source(re) == pattern@,
{
    regex::Regex::new(pattern)
}

/// `regex::Regex::is_match`: tells whether the regex has a match anywhere
/// in `haystack`. The answer is a function of the pattern the regex was made
/// from and of the characters of `haystack`, named `regex_finds`.
#[verifier::external_body]
fn regex_is_match(re: &regex::Regex, haystack: &str) -> (found: bool)
    ensures
        found == regex_finds(regex_source(*re), haystack@),
{
    re.is_match(haystack)
}

/// The file-name pattern, compiled once and used for every file.
pub struct NamePattern {
    re: regex::Regex,
}

/// The name belongs to a file the grader reviews: its lowercase form has a
/// match of the file-name pattern.
pub open spec fn is_reviewed_name(name: Seq<char>) -> bool {
    regex_finds(NAME_PATTERN@, lowercase(name))
}

impl NamePattern {
    #[verifier::type_invariant]
    spec fn made_from_name_pattern(&self) -> bool {
        regex_source(self.re) == NAME_PATTERN@
    }

    /// Says what `new` makes of the regex engine's answer: the pattern if the
    /// engine compiled it, `PatternRejected` if not.
    fn from_compiled(compiled: Result<regex::Regex, regex::Error>) -> (result: Result<
        NamePattern,
        GraderError,
    >)
        requires
            compiled matches Ok(re) ==> regex_source(re) == NAME_PATTERN@,
        ensures
            result is Ok <==> compiled is Ok,
            result matches Err(e) ==> e == GraderError::PatternRejected,
    {
        match compiled {
            Ok(re) => Ok(NamePattern { re }),
            Err(_) => Err(GraderError::PatternRejected),
        }
    }

    /// Compiles the file-name pattern. Fails with `PatternRejected` if the
    /// regex engine refuses it.
    pub fn new() -> (result: Result<NamePattern, GraderError>)
        ensures
            result matches Err(e) ==> e == GraderError::PatternRejected,
    {
        NamePattern::from_compiled(regex_new(NAME_PATTERN))
    }

    /// Tells whether the pattern has a match in a name already in lowercase.
    pub fn matches_lowered(&self, lowered_name: &str) -> (found: bool)
        ensures
            found == regex_finds(NAME_PATTERN@, lowered_name@),
    {
        proof {
            use_type_invariant(self);
        }
        regex_is_match(&self.re, lowered_name)
    }

    /// Tells whether a file of this name is one the grader reviews.
    pub fn matches(&self, name: &str) -> (found: bool)
        ensures
            found == is_reviewed_name(name@),
    {
        let lowered = to_lowercase(name);
        self.matches_lowered(lowered.as_str())
    }
}

/// One line of a report: a file and whether it passed the check.
#[derive(Clone, Debug, PartialEq, Eq)]
pub struct CheckLine {
    pub name: String,
    pub passed: bool,
}

/// A [`CheckLine`] with the name as characters.
pub struct CheckLineView {
    pub name: Seq<char>,
    pub passed: bool,
}

impl View for CheckLine {
    type V = CheckLineView;

    open spec fn view(&self) -> CheckLineView {
        CheckLineView { name: self.name@, passed: self.passed }
    }
}

/// The name of a file tells that it is a readme.
pub open spec fn is_readme_name(name: Seq<char>) -> bool {
    is_substring(README_MARKER@, lowercase(name))
}

/// The text of the file holds the submitter's family name, in any case.
pub open spec fn names_submitter(file: FileView, sortable_name: Seq<char>) -> bool {
    is_substring(family_name_of(sortable_name), lowercase(file.text()))
}

/// The text of the file holds the required disclaimer, in any case.
pub open spec fn has_disclaimer(file: FileView) -> bool {
    is_substring(README_DISCLAIMER@, lowercase(file.text()))
}

/// Picks the files the grader reviews.
pub open spec fn reviewed() -> spec_fn(FileView) -> bool {
    |file: FileView| is_reviewed_name(file.name)
}

/// Picks the readmes.
pub open spec fn readme() -> spec_fn(FileView) -> bool {
    |file: FileView| is_readme_name(file.name)
}

/// The name-match line of a file of the submitter `sortable_name`.
pub open spec fn name_line(sortable_name: Seq<char>) -> spec_fn(FileView) -> CheckLineView {
    |file: FileView| (CheckLineView { name: file.name, passed: names_submitter(file, sortable_name) })
}

/// The disclaimer line of a file.
pub open spec fn disclaimer_line() -> spec_fn(FileView) -> CheckLineView {
    |file: FileView| (CheckLineView { name: file.name, passed: has_disclaimer(file) })
}

/// The path of a file.
pub open spec fn path_of() -> spec_fn(FileView) -> Seq<char> {
    |file: FileView| file.path
}

/// The name-match report: one line for each reviewed file, in the order of
/// the files, passed if the file names the submitter.
pub open spec fn name_report_of(files: Seq<FileView>, sortable_name: Seq<char>) -> Seq<CheckLineView> {
    files.filter(reviewed()).map_values(name_line(sortable_name))
}

/// The disclaimer report: one line for each readme, in the order of the
/// files, passed if the readme holds the disclaimer. No other file is judged.
pub open spec fn disclaimer_report_of(files: Seq<FileView>) -> Seq<CheckLineView> {
    files.filter(readme()).map_values(disclaimer_line())
}

/// The paths of the files opened for review: the reviewed files, in order.
pub open spec fn review_list_of(files: Seq<FileView>) -> Seq<Seq<char>> {
    files.filter(reviewed()).map_values(path_of())
}

/// The files as the reports see them.
pub open spec fn views_of(files: Seq<FileRecord>) -> Seq<FileView> {
    files.map_values(|file: FileRecord| file@)
}

/// Judges one file: the line says whether `needle` stands in the lowercase
/// text of the file.
pub fn check_line(name: &str, lowered_text: &str, needle: &str) -> (line: CheckLine)
    ensures
        line@.name == name@,
        line@.passed == is_substring(needle@, lowered_text@),
{
    CheckLine { name: name.to_owned(), passed: contains(lowered_text, needle) }
}

/// Tells a readme by the lowercase form of its name.
pub fn is_readme(lowered_name: &str) -> (readme: bool)
    ensures
        readme == is_substring(README_MARKER@, lowered_name@),
{
    contains(lowered_name, README_MARKER)
}

/// The lowercase text of a file; empty for a file without readable text.
fn lowered_text(file: &FileRecord) -> (lowered: String)
    ensures
        lowered@ == lowercase(file@.text()),
{
    proof {
        reveal_strlit("");
    }
    match &file.contents {
        Some(text) => to_lowercase(text.as_str()),
        None => {
            assert(""@ =~= Seq::<char>::empty());
            to_lowercase("")
        },
    }
}

/// What the grader is shown of one submission, and what is opened for review.
#[derive(Clone, Debug, PartialEq, Eq)]
pub struct GradeReport {
    /// Whether each reviewed file names the submitter.
    pub name_lines: Vec<CheckLine>,
    /// Whether each readme holds the disclaimer.
    pub disclaimer_lines: Vec<CheckLine>,
    /// The paths of the files to open in the editor, in order.
    pub review: Vec<String>,
}

impl GradeReport {
    /// The name-match lines, names as characters.
    pub open spec fn name_lines(&self) -> Seq<CheckLineView> {
        self.name_lines@.map_values(|line: CheckLine| line@)
    }

    /// The disclaimer lines, names as characters.
    pub open spec fn disclaimer_lines(&self) -> Seq<CheckLineView> {
        self.disclaimer_lines@.map_values(|line: CheckLine| line@)
    }

    /// The paths to open, as characters.
    pub open spec fn review(&self) -> Seq<Seq<char>> {
        self.review@.map_values(|path: String| path@)
    }

    /// `self` is the report on `files` for the submitter `sortable_name`.
    pub open spec fn reports(&self, files: Seq<FileView>, sortable_name: Seq<char>) -> bool {
        &&& self.name_lines() == name_report_of(files, sortable_name)
        &&& self.disclaimer_lines() == disclaimer_report_of(files)
        &&& self.review() == review_list_of(files)
    }
}

/// Runs both checks over the files of a submission and lists the files to
/// review. The checks judge; they change nothing and stop nothing.
pub fn grade_files(sortable_name: &str, files: &Vec<FileRecord>, pattern: &NamePattern) -> (report:
    GradeReport)
    ensures
        report.reports(views_of(files@), sortable_name@),
{
    let family = family_name(sortable_name);
    let ghost owner = sortable_name@;
    let ghost views = views_of(files@);
    let mut report = GradeReport {
        name_lines: Vec::new(),
        disclaimer_lines: Vec::new(),
        review: Vec::new(),
    };
    let mut i: usize = 0;
    proof {
        assert(views.take(0) =~= Seq::<FileView>::empty());
        assert(report.name_lines() =~= name_report_of(views.take(0), owner));
        assert(report.disclaimer_lines() =~= disclaimer_report_of(views.take(0)));
        assert(report.review() =~= review_list_of(views.take(0)));
    }
    while i < files.len()
        invariant
            i <= files@.len(),
            views == views_of(files@),
            owner == sortable_name@,
            family@ == family_name_of(owner),
            report.reports(views.take(i as int), owner),
        decreases files@.len() - i,
    {
        let file = &files[i];
        let ghost seen = views.take(i as int);
        let ghost view = file@;
        let ghost before = report;
        proof {
            assert(views[i as int] == view);
            assert(views.take(i + 1) =~= seen.push(view));
            seen.lemma_filter_push(view, reviewed());
            seen.lemma_filter_push(view, readme());
            seen.filter(reviewed()).lemma_push_map_commute(name_line(owner), view);
            seen.filter(reviewed()).lemma_push_map_commute(path_of(), view);
            seen.filter(readme()).lemma_push_map_commute(disclaimer_line(), view);
        }
        let lowered_name = to_lowercase(file.name.as_str());
        let is_reviewed = pattern.matches_lowered(lowered_name.as_str());
        let is_readme_file = is_readme(lowered_name.as_str());
        if is_reviewed || is_readme_file {
            let text = lowered_text(file);
            if is_reviewed {
                let line = check_line(file.name.as_str(), text.as_str(), family.as_str());
                report.name_lines.push(line);
                report.review.push(file.path.clone());
                assert(report.name_lines() =~= before.name_lines().push(line@));
                assert(report.review() =~= before.review().push(file.path@));
            }
            if is_readme_file {
                let line = check_line(file.name.as_str(), text.as_str(), README_DISCLAIMER);
                report.disclaimer_lines.push(line);
                assert(report.disclaimer_lines() =~= before.disclaimer_lines().push(line@));
            }
        }
        i = i + 1;
    }
    assert(views.take(i as int) =~= views);
    report
}

impl DownloadedSubmission {
    /// Grades the submission from the files found in its directory.
    pub fn grade(&self, files: &Vec<FileRecord>, pattern: &NamePattern) -> (report: GradeReport)
        ensures
            report.reports(views_of(files@), self.user_profile.sortable_name@),
    {
        grade_files(self.user_profile.sortable_name.as_str(), files, pattern)
    }
}

} // verus!
