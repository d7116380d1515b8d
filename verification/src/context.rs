//! What a run works with: the settings as the command line gave them, the
//! layout of the data directory, and the settings made ready for the run.

use crate::github::{full_name_of, path_friendly, Repo};
use crate::rules::{
    explanations, kept, lemma_kept_without_rules, parse_rules, rules_of_both, Error, ErrorView,
    RuleSet, RuleSetView,
};
use crate::text::{
    append_chars, chars_of, join, join_with, split_words, string_views, text_of, views, words,
};
use vstd::prelude::*;

verus! {

/// The settings of the command line.
#[derive(Debug, Clone, PartialEq, Eq)]
pub struct Cli {
    /// The personal access token for the hosting service.
    pub token: String,
    /// The directory for the working copies and the logs, if one was named.
    pub data_dir: Option<String>,
    /// Whether a temporary data directory is fine without asking.
    pub temp: bool,
    /// Where the video goes.
    pub output: String,
    /// Whether the working copies are taken as they are, without fetching.
    pub skip_clone: bool,
    /// Rules given on the command line, one to an item.
    pub inline_rules: Vec<String>,
    /// The file that holds rules, if one was named.
    pub include_file: Option<String>,
    /// Further arguments for the encoder, separated by white space.
    pub ffmpeg_args: String,
    /// Further arguments for the renderer, separated by white space.
    pub gource_args: String,
}

/// The data directory: one made for this run, which goes when the run ends,
/// or the one that was named. Either way it is held by its path.
#[derive(Debug, Clone, PartialEq, Eq)]
pub enum OutputDir {
    Temp(String),
    Specified(String),
}

/// The settings of a run.
#[derive(Debug, Clone, PartialEq, Eq)]
pub struct Context {
    pub token: String,
    pub data_dir: OutputDir,
    pub output: String,
    pub skip_clone: bool,
    pub includes: Option<RuleSet>,
    pub ffmpeg_args: Vec<String>,
    pub gource_args: Vec<String>,
}

/// The mathematical content of a [`Context`].
pub struct ContextView {
    pub token: Seq<char>,
    pub temporary: bool,
    pub data_dir: Seq<char>,
    pub output: Seq<char>,
    pub skip_clone: bool,
    pub includes: Option<RuleSetView>,
    pub ffmpeg_args: Seq<Seq<char>>,
    pub gource_args: Seq<Seq<char>>,
}

impl View for Context {
    type V = ContextView;

    open spec fn view(&self) -> ContextView {
        ContextView {
            token: self.token@,
            temporary: self.data_dir is Temp,
            data_dir: self.data_dir.root(),
            output: self.output@,
            skip_clone: self.skip_clone,
            includes: match self.includes {
                Some(rules) => Some(rules@),
                None => None,
            },
            ffmpeg_args: string_views(self.ffmpeg_args@),
            gource_args: string_views(self.gource_args@),
        }
    }
}

/// Why the settings of the command line give no settings for a run.
#[derive(Debug, Clone, PartialEq, Eq)]
pub enum ContextError {
    /// No data directory was named and none was made.
    NoDataDir,
    /// The rule file cannot be read as rules.
    IncludeFile(Error),
    /// The rules of the command line cannot be read as rules.
    CommandLine(Error),
}

/// The mathematical content of a [`ContextError`].
pub enum ContextErrorView {
    NoDataDir,
    IncludeFile(ErrorView),
    CommandLine(ErrorView),
}

impl View for ContextError {
    type V = ContextErrorView;

    open spec fn view(&self) -> ContextErrorView {
        match self {
            ContextError::NoDataDir => ContextErrorView::NoDataDir,
            ContextError::IncludeFile(e) => ContextErrorView::IncludeFile(e@),
            ContextError::CommandLine(e) => ContextErrorView::CommandLine(e@),
        }
    }
}

/// One path below another, with `/` between them unless the first is empty
/// or ends with one.
pub open spec fn joined(base: Seq<char>, part: Seq<char>) -> Seq<char> {
    if base.len() == 0 || base.last() == '/' {
        base + part
    } else {
        base.push('/') + part
    }
}

/// One path below another, see [`joined`].
pub fn join_path(base: &str, part: &str) -> (r: String)
    ensures
        r@ == joined(base@, part@),
{
    let mut buf = chars_of(base);
    let n = buf.len();
    if n > 0 && buf[n - 1] != '/' {
        buf.push('/');
    }
    let tail = chars_of(part);
    append_chars(&mut buf, &tail);
    text_of(&buf)
}

/// The rules of several sources as one: the rules of the second behind
/// those of the first, list by list. Where only one source is there, its
/// rules; where none is, no rules.
pub open spec fn merged(a: Option<RuleSetView>, b: Option<RuleSetView>) -> Option<RuleSetView> {
    match (a, b) {
        (Some(x), Some(y)) => Some(rules_of_both(x, y)),
        (Some(x), None) => Some(x),
        (None, y) => y,
    }
}

/// No rules at all.
pub open spec fn no_rules() -> RuleSetView {
    RuleSetView { includes: seq![], excludes: seq![] }
}

/// The rules in force for a run: the rules that its settings hold, and no
/// rules at all where they hold none. Without a rule source nothing is
/// selected, as with a source that holds no rule.
pub open spec fn rules_in_force(cx: ContextView) -> RuleSetView {
    match cx.includes {
        Some(rules) => rules,
        None => no_rules(),
    }
}

/// What the settings for a run are. The data directory is the one that was
/// named, else the temporary one; without either there are no settings.
/// The rules are those of the rule file followed by those of the command
/// line, whose items are read as the lines of one text; a source that is
/// not there adds nothing, and a source that cannot be read is an error,
/// the file looked at first. The further arguments are cut into words.
pub open spec fn context_of(cli: Cli, temp_dir: Option<Seq<char>>, file_text: Option<Seq<char>>)
    -> Result<ContextView, ContextErrorView> {
    if cli.data_dir is None && temp_dir is None {
        Err(ContextErrorView::NoDataDir)
    } else {
        let file_rules = match file_text {
            Some(text) => Some(parse_rules(text)),
            None => None,
        };
        let line_rules = if cli.inline_rules@.len() > 0 {
            Some(parse_rules(join(string_views(cli.inline_rules@), '\n')))
        } else {
            None
        };
        if file_rules is Some && file_rules->Some_0 is Err {
            Err(ContextErrorView::IncludeFile(file_rules->Some_0->Err_0))
        } else if line_rules is Some && line_rules->Some_0 is Err {
            Err(ContextErrorView::CommandLine(line_rules->Some_0->Err_0))
        } else {
            Ok(
                ContextView {
                    token: cli.token@,
                    temporary: cli.data_dir is None,
                    data_dir: match cli.data_dir {
                        Some(d) => d@,
                        None => temp_dir->Some_0,
                    },
                    output: cli.output@,
                    skip_clone: cli.skip_clone,
                    includes: merged(
                        match file_rules {
                            Some(Ok(r)) => Some(r),
                            _ => None,
                        },
                        match line_rules {
                            Some(Ok(r)) => Some(r),
                            _ => None,
                        },
                    ),
                    ffmpeg_args: words(cli.ffmpeg_args@),
                    gource_args: words(cli.gource_args@),
                },
            )
        }
    }
}

/// The items of a list as the lines of one text.
pub fn join_lines(items: &Vec<String>) -> (r: String)
    ensures
        r@ == join(string_views(items@), '\n'),
{
    let mut parts: Vec<Vec<char>> = Vec::new();
    let mut i: usize = 0;
    while i < items.len()
        invariant
            i <= items.len(),
            parts.len() == i,
            forall|j: int| 0 <= j < i ==> (#[trigger] parts@[j])@ == items@[j]@,
        decreases items.len() - i,
    {
        parts.push(chars_of(items[i].as_str()));
        i += 1;
    }
    assert(views(parts@) == string_views(items@));
    let out = join_with(&parts, '\n');
    text_of(&out)
}

/// The words of a text as strings, see [`words`].
pub fn split_args(text: &str) -> (r: Vec<String>)
    ensures
        string_views(r@) == words(text@),
{
    let chars = chars_of(text);
    let parts = split_words(&chars);
    let mut r: Vec<String> = Vec::new();
    let mut i: usize = 0;
    while i < parts.len()
        invariant
            i <= parts.len(),
            r.len() == i,
            forall|j: int| 0 <= j < i ==> (#[trigger] r@[j])@ == parts@[j]@,
        decreases parts.len() - i,
    {
        r.push(text_of(&parts[i]));
        i += 1;
    }
    assert(string_views(r@) == views(parts@));
    r
}

impl Cli {
    /// Whether the user has to be asked before a temporary data directory is
    /// made: no directory was named, and none was said to be fine.
    pub fn needs_confirmation(&self) -> (b: bool)
        ensures
            b == (self.data_dir is None && !self.temp),
    {
        self.data_dir.is_none() && !self.temp
    }

    /// Whether a temporary data directory has to be made: none was named.
    pub fn needs_temp_dir(&self) -> (b: bool)
        ensures
            b == (self.data_dir is None),
    {
        self.data_dir.is_none()
    }
}

impl OutputDir {
    /// The path of the data directory.
    pub open spec fn root(&self) -> Seq<char> {
        match self {
            OutputDir::Temp(p) => p@,
            OutputDir::Specified(p) => p@,
        }
    }

    /// The path of the data directory.
    #[must_use]
    pub fn path(&self) -> (r: &str)
        ensures
            r@ == self.root(),
    {
        match self {
            OutputDir::Specified(path) => path.as_str(),
            OutputDir::Temp(temp) => temp.as_str(),
        }
    }

    /// The directory of the working copies.
    #[must_use]
    pub fn repos_dir(&self) -> (r: String)
        ensures
            r@ == joined(self.root(), "repos"@),
    {
        join_path(self.path(), "repos")
    }

    /// The directory of the working copy of a repository, named by the
    /// repository's identity in its path-friendly form.
    #[must_use]
    pub fn repo_dir(&self, repo: &Repo) -> (r: String)
        ensures
            r@ == joined(joined(self.root(), "repos"@), path_friendly(full_name_of(repo@))),
    {
        join_path(self.repos_dir().as_str(), repo.full_name_path_friendly().as_str())
    }

    /// The directory of the logs.
    #[must_use]
    pub fn gource_dir(&self) -> (r: String)
        ensures
            r@ == joined(self.root(), "gource"@),
    {
        join_path(self.path(), "gource")
    }

    /// The log file of a repository: named by the repository's identity in
    /// its path-friendly form, with `.txt` behind it.
    #[must_use]
    pub fn gource_log(&self, repo: &Repo) -> (r: String)
        ensures
            r@ == joined(
                joined(self.root(), "gource"@),
                path_friendly(full_name_of(repo@)) + ".txt"@,
            ),
    {
        let mut name = repo.full_name_path_friendly();
        name.append(".txt");
        join_path(self.gource_dir().as_str(), name.as_str())
    }

    /// The file of the merged log.
    #[must_use]
    pub fn sorted_log(&self) -> (r: String)
        ensures
            r@ == joined(self.root(), "sorted.txt"@),
    {
        join_path(self.path(), "sorted.txt")
    }
}

impl Context {
    /// Drops from the catalogue every repository that the rules in force do
    /// not keep; the others stay, in their order. What is returned says of
    /// every repository of the catalogue as it was, in order, what was
    /// decided and by which rules. Where the settings hold no rules, or
    /// rules none of which selects, no repository is kept.
    pub fn select(&self, repos: &mut Vec<Repo>) -> (said: Vec<String>)
        ensures
            final(repos)@ == kept(rules_in_force(self@), old(repos)@),
            string_views(said@) == explanations(rules_in_force(self@), old(repos)@),
            rules_in_force(self@).includes.len() == 0 ==> final(repos)@.len() == 0,
    {
        proof {
            if rules_in_force(self@).includes.len() == 0 {
                lemma_kept_without_rules(rules_in_force(self@), repos@);
            }
        }
        match &self.includes {
            Some(rules) => rules.apply(repos),
            None => {
                let none = RuleSet::new();
                assert(none@.includes =~= no_rules().includes);
                assert(none@.excludes =~= no_rules().excludes);
                assert(none@ == no_rules());
                none.apply(repos)
            },
        }
    }

    /// Makes the settings of a run from those of the command line, see
    /// [`context_of`]. `temp_dir` is the path of the temporary directory
    /// where one was made; `include_text` is what the rule file holds where
    /// one was named.
    pub fn from_cli(cli: Cli, temp_dir: Option<String>, include_text: Option<String>) -> (r: Result<
        Context,
        ContextError,
    >)
        ensures
            match r {
                Ok(cx) => context_of(
                    cli,
                    match temp_dir {
                        Some(t) => Some(t@),
                        None => None,
                    },
                    match include_text {
                        Some(t) => Some(t@),
                        None => None,
                    },
                ) == Ok::<ContextView, ContextErrorView>(cx@),
                Err(e) => context_of(
                    cli,
                    match temp_dir {
                        Some(t) => Some(t@),
                        None => None,
                    },
                    match include_text {
                        Some(t) => Some(t@),
                        None => None,
                    },
                ) == Err::<ContextView, ContextErrorView>(e@),
            },
    {
        let ffmpeg_args = split_args(cli.ffmpeg_args.as_str());
        let gource_args = split_args(cli.gource_args.as_str());
        let data_dir = match cli.data_dir {
            Some(dir) => OutputDir::Specified(dir),
            None => match temp_dir {
                Some(dir) => OutputDir::Temp(dir),
                None => {
                    return Err(ContextError::NoDataDir);
                },
            },
        };
        let mut includes: Option<RuleSet> = None;
        match &include_text {
            Some(text) => {
                match RuleSet::parse(text.as_str()) {
                    Ok(rules) => {
                        includes = Some(rules);
                    },
                    Err(e) => {
                        return Err(ContextError::IncludeFile(e));
                    },
                }
            },
            None => {},
        }
        if cli.inline_rules.len() > 0 {
            let text = join_lines(&cli.inline_rules);
            match RuleSet::parse(text.as_str()) {
                Ok(rules) => {
                    includes = match includes {
                        Some(mut first) => {
                            first.merge(rules);
                            Some(first)
                        },
                        None => Some(rules),
                    };
                },
                Err(e) => {
                    return Err(ContextError::CommandLine(e));
                },
            }
        }
        Ok(
            Context {
                token: cli.token,
                data_dir,
                output: cli.output,
                skip_clone: cli.skip_clone,
                includes,
                ffmpeg_args,
                gource_args,
            },
        )
    }
}

} // verus!
