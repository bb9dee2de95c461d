//! Publishing backup files through a git working copy: which files give way
//! to new ones, which commands run in which order, and when a command's
//! failure ends the work.
//!
//! The commands themselves are run by the caller, who hands back what each
//! one reported.

use crate::command::{CommandOutput, CommandOutputView};
use crate::text::{
    contains, ends_with, has_substring, has_suffix, names_view, trim, trimmed,
};
use vstd::prelude::*;

verus! {

/// How far the publishing of a set of files has come.
#[derive(Debug, Clone, Copy, PartialEq, Eq)]
pub enum PushStep {
    /// The old chunks are to be removed from the working copy and the files
    /// copied into it.
    Stage,
    /// `git add -A` is to run.
    Add,
    /// `git commit -m <message>` is to run.
    Commit,
    /// `git push -u origin main` is to run.
    Push,
    /// All is published.
    Finished,
}

/// A command whose failure ended the publishing, with what it wrote to its
/// standard error.
#[derive(Debug, PartialEq, Eq)]
pub enum PushError {
    AddFailed { stderr: String },
    CommitFailed { stderr: String },
    PushFailed { stderr: String },
}

/// A failed command as contracts speak of it.
pub enum PushFailure {
    AddFailed { stderr: Seq<char> },
    CommitFailed { stderr: Seq<char> },
    PushFailed { stderr: Seq<char> },
}

impl View for PushError {
    type V = PushFailure;

    open spec fn view(&self) -> PushFailure {
        match self {
            PushError::AddFailed { stderr } => PushFailure::AddFailed { stderr: stderr@ },
            PushError::CommitFailed { stderr } => PushFailure::CommitFailed { stderr: stderr@ },
            PushError::PushFailed { stderr } => PushFailure::PushFailed { stderr: stderr@ },
        }
    }
}

/// The files to publish, the commit message, and how far the work has come.
#[derive(Debug, PartialEq, Eq)]
pub struct PushSession {
    pub files: Vec<String>,
    pub message: String,
    pub step: PushStep,
}

/// A session as contracts speak of it.
pub struct PushSessionView {
    pub files: Seq<Seq<char>>,
    pub message: Seq<char>,
    pub step: PushStep,
}

impl View for PushSession {
    type V = PushSessionView;

    open spec fn view(&self) -> PushSessionView {
        PushSessionView { files: names_view(self.files@), message: self.message@, step: self.step }
    }
}

/// Whether a file of the working copy gives way to a new backup: a chunk
/// (`.enc.` inside, but not `.enc` at the end) or a manifest.
pub open spec fn is_old_chunk_name(name: Seq<char>) -> bool {
    (has_substring(name, ".enc."@) && !has_suffix(name, ".enc"@)) || has_suffix(
        name,
        ".manifest"@,
    )
}

/// The names among `names` that give way to a new backup, in their order.
pub open spec fn old_chunk_names(names: Seq<Seq<char>>) -> Seq<Seq<char>>
    decreases names.len(),
{
    if names.len() == 0 {
        Seq::empty()
    } else if is_old_chunk_name(names.last()) {
        old_chunk_names(names.drop_last()).push(names.last())
    } else {
        old_chunk_names(names.drop_last())
    }
}

/// The step that follows `step` once its command has reported `output`, or
/// the failure that ends the work. A commit that finds nothing to commit is
/// no failure. Staging runs no command, and what is finished stays so.
pub open spec fn next_step(step: PushStep, output: CommandOutputView) -> Result<
    PushStep,
    PushFailure,
> {
    match step {
        PushStep::Stage => Ok(PushStep::Add),
        PushStep::Add => if output.success {
            Ok(PushStep::Commit)
        } else {
            Err(PushFailure::AddFailed { stderr: output.stderr })
        },
        PushStep::Commit => if output.success || has_substring(
            output.stderr,
            "nothing to commit"@,
        ) {
            Ok(PushStep::Push)
        } else {
            Err(PushFailure::CommitFailed { stderr: output.stderr })
        },
        PushStep::Push => if output.success {
            Ok(PushStep::Finished)
        } else {
            Err(PushFailure::PushFailed { stderr: output.stderr })
        },
        PushStep::Finished => Ok(PushStep::Finished),
    }
}

/// The arguments that git is run with at a step; none where the step runs no
/// command.
pub open spec fn step_arguments(step: PushStep, message: Seq<char>) -> Seq<Seq<char>> {
    match step {
        PushStep::Add => seq!["add"@, "-A"@],
        PushStep::Commit => seq!["commit"@, "-m"@, message],
        PushStep::Push => seq!["push"@, "-u"@, "origin"@, "main"@],
        _ => Seq::empty(),
    }
}

/// Whether a file of the working copy gives way to a new backup.
pub fn is_old_chunk_file(name: &str) -> (found: bool)
    ensures
        found == is_old_chunk_name(name@),
{
    (contains(name, ".enc.") && !ends_with(name, ".enc")) || ends_with(name, ".manifest")
}

/// Picks the files of the working copy that are removed before new ones are
/// copied in.
pub fn remove_old_chunks(names: &Vec<String>) -> (removed: Vec<String>)
    ensures
        names_view(removed@) == old_chunk_names(names_view(names@)),
{
    let ghost all = names_view(names@);
    let mut removed: Vec<String> = Vec::new();
    let mut i: usize = 0;
    while i < names.len()
        invariant
            i <= names@.len(),
            all == names_view(names@),
            names_view(removed@) == old_chunk_names(all.take(i as int)),
        decreases names@.len() - i,
    {
        proof {
            assert(all.take(i + 1).drop_last() =~= all.take(i as int));
            assert(all.take(i + 1).last() == names@[i as int]@);
        }
        let ghost before = names_view(removed@);
        if is_old_chunk_file(names[i].as_str()) {
            removed.push(names[i].clone());
            assert(names_view(removed@) =~= before.push(names@[i as int]@));
        }
        i += 1;
    }
    assert(all.take(i as int) =~= all);
    removed
}

/// Starts the publishing of several files under one commit message.
pub fn commit_and_push_files(files: Vec<String>, message: &str) -> (session: PushSession)
    ensures
        session@ == (PushSessionView {
            files: names_view(files@),
            message: message@,
            step: PushStep::Stage,
        }),
{
    PushSession { files, message: String::from_str(message), step: PushStep::Stage }
}

/// Starts the publishing of one file.
pub fn commit_and_push(file_path: &str, message: &str) -> (session: PushSession)
    ensures
        session@ == (PushSessionView {
            files: seq![file_path@],
            message: message@,
            step: PushStep::Stage,
        }),
{
    let mut files: Vec<String> = Vec::new();
    files.push(String::from_str(file_path));
    assert(names_view(files@) =~= seq![file_path@]);
    commit_and_push_files(files, message)
}

impl PushSession {
    /// The arguments that git is to be run with now; none while the files
    /// are staged and once all is published.
    pub fn arguments(&self) -> (args: Vec<String>)
        ensures
            names_view(args@) == step_arguments(self.step, self.message@),
    {
        let mut args: Vec<String> = Vec::new();
        match self.step {
            PushStep::Add => {
                args.push(String::from_str("add"));
                args.push(String::from_str("-A"));
                assert(names_view(args@) =~= step_arguments(self.step, self.message@));
            },
            PushStep::Commit => {
                args.push(String::from_str("commit"));
                args.push(String::from_str("-m"));
                args.push(self.message.clone());
                assert(names_view(args@) =~= step_arguments(self.step, self.message@));
            },
            PushStep::Push => {
                args.push(String::from_str("push"));
                args.push(String::from_str("-u"));
                args.push(String::from_str("origin"));
                args.push(String::from_str("main"));
                assert(names_view(args@) =~= step_arguments(self.step, self.message@));
            },
            _ => {
                assert(names_view(args@) =~= step_arguments(self.step, self.message@));
            },
        }
        args
    }

    /// Moves on after the current step: to the next one, or to the failure
    /// that ends the work. `output` is what the step's command reported; for
    /// staging, which runs none, it is not looked at.
    pub fn advance(self, output: &CommandOutput) -> (res: Result<PushSession, PushError>)
        ensures
            match res {
                Ok(session) => next_step(self.step, output@) == Ok::<PushStep, PushFailure>(
                    session.step,
                ) && session.files == self.files && session.message == self.message,
                Err(e) => next_step(self.step, output@) == Err::<PushStep, PushFailure>(e@),
            },
    {
        let step = match self.step {
            PushStep::Stage => PushStep::Add,
            PushStep::Add => {
                if !output.success {
                    return Err(PushError::AddFailed { stderr: output.stderr.clone() });
                }
                PushStep::Commit
            },
            PushStep::Commit => {
                if !output.success && !contains(output.stderr.as_str(), "nothing to commit") {
                    return Err(PushError::CommitFailed { stderr: output.stderr.clone() });
                }
                PushStep::Push
            },
            PushStep::Push => {
                if !output.success {
                    return Err(PushError::PushFailed { stderr: output.stderr.clone() });
                }
                PushStep::Finished
            },
            PushStep::Finished => PushStep::Finished,
        };
        Ok(PushSession { files: self.files, message: self.message, step })
    }
}

/// Whether the local repository is set up: its directory is known and holds
/// a `.git` entry. `git_dir_exists` is what looking for that entry gave, and
/// `None` where the directory could not be determined.
pub fn is_repo_initialized(git_dir_exists: Option<bool>) -> (initialized: bool)
    ensures
        initialized == (git_dir_exists == Some(true)),
{
    match git_dir_exists {
        Some(exists) => exists,
        None => false,
    }
}

/// What a failed command says to the user.
pub open spec fn push_message_text(failure: PushFailure) -> Seq<char> {
    match failure {
        PushFailure::AddFailed { stderr } => "git add failed: "@ + stderr,
        PushFailure::CommitFailed { stderr } => "git commit failed: "@ + stderr,
        PushFailure::PushFailed { stderr } => "git push failed: "@ + stderr,
    }
}

impl PushError {
    /// What the failure says to the user.
    pub fn message(&self) -> (text: String)
        ensures
            text@ == push_message_text(self@),
    {
        match self {
            PushError::AddFailed { stderr } => {
                let mut text = String::from_str("git add failed: ");
                text.append(stderr.as_str());
                text
            },
            PushError::CommitFailed { stderr } => {
                let mut text = String::from_str("git commit failed: ");
                text.append(stderr.as_str());
                text
            },
            PushError::PushFailed { stderr } => {
                let mut text = String::from_str("git push failed: ");
                text.append(stderr.as_str());
                text
            },
        }
    }
}

/// How far the setting up of the remote repository and of its working copy
/// has come.
#[derive(Debug, Clone, Copy, PartialEq, Eq)]
pub enum SetupStep {
    /// `gh repo view <name>` is to run, to see whether the repository exists.
    ViewRepo,
    /// `gh repo create <name> --private --description <text>` is to run.
    CreateRepo,
    /// `gh repo view <name> --json sshUrl -q .sshUrl` is to run.
    QueryUrl,
    /// `git init` is to run in the working copy.
    InitRepo,
    /// `git checkout -b main` is to run in the working copy.
    CheckoutMain,
    /// `git remote add origin <url>` is to run in the working copy.
    AddRemote,
    /// All is set up.
    Finished,
}

/// A command whose failure ended the setting up.
#[derive(Debug, PartialEq, Eq)]
pub enum SetupError {
    /// The repository could not be created; with what the command said.
    CreateFailed { stderr: String },
    /// The working copy could not be initialized.
    InitFailed,
}

/// A failed setup as contracts speak of it.
pub enum SetupFailure {
    CreateFailed { stderr: Seq<char> },
    InitFailed,
}

impl View for SetupError {
    type V = SetupFailure;

    open spec fn view(&self) -> SetupFailure {
        match self {
            SetupError::CreateFailed { stderr } => SetupFailure::CreateFailed { stderr: stderr@ },
            SetupError::InitFailed => SetupFailure::InitFailed,
        }
    }
}

/// The step at hand, and the address of the repository once it is known.
#[derive(Debug, PartialEq, Eq)]
pub struct RepoSetup {
    pub step: SetupStep,
    pub repo_url: String,
}

/// The step that follows `step` once its command has reported `output`, or
/// the failure that ends the work. A repository that exists is not created
/// again, and a working copy that holds a `.git` entry is left as it is.
/// Whether the new branch could be made and the remote added is not looked
/// at.
pub open spec fn setup_next_step(
    step: SetupStep,
    output: CommandOutputView,
    git_dir_exists: bool,
) -> Result<SetupStep, SetupFailure> {
    match step {
        SetupStep::ViewRepo => if output.success {
            Ok(SetupStep::QueryUrl)
        } else {
            Ok(SetupStep::CreateRepo)
        },
        SetupStep::CreateRepo => if output.success {
            Ok(SetupStep::QueryUrl)
        } else {
            Err(SetupFailure::CreateFailed { stderr: output.stderr })
        },
        SetupStep::QueryUrl => if git_dir_exists {
            Ok(SetupStep::Finished)
        } else {
            Ok(SetupStep::InitRepo)
        },
        SetupStep::InitRepo => if output.success {
            Ok(SetupStep::CheckoutMain)
        } else {
            Err(SetupFailure::InitFailed)
        },
        SetupStep::CheckoutMain => Ok(SetupStep::AddRemote),
        SetupStep::AddRemote => Ok(SetupStep::Finished),
        SetupStep::Finished => Ok(SetupStep::Finished),
    }
}

/// The address of the repository after a step: what the query for it
/// printed, without the white space around it, and before and after that
/// step what it was.
pub open spec fn setup_next_url(step: SetupStep, output: CommandOutputView, url: Seq<char>) -> Seq<
    char,
> {
    if step == SetupStep::QueryUrl {
        trimmed(output.stdout)
    } else {
        url
    }
}

/// Starts the setting up of the remote repository: nothing is known of it
/// yet.
pub fn create_github_repo() -> (setup: RepoSetup)
    ensures
        setup.step == SetupStep::ViewRepo,
        setup.repo_url@ == Seq::<char>::empty(),
{
    RepoSetup { step: SetupStep::ViewRepo, repo_url: String::new() }
}

impl RepoSetup {
    /// Moves on after the current step: to the next one, or to the failure
    /// that ends the work. `output` is what the step's command reported, and
    /// `git_dir_exists` whether the working copy holds a `.git` entry.
    pub fn advance(self, output: &CommandOutput, git_dir_exists: bool) -> (res: Result<
        RepoSetup,
        SetupError,
    >)
        ensures
            match res {
                Ok(setup) => setup_next_step(self.step, output@, git_dir_exists) == Ok::<
                    SetupStep,
                    SetupFailure,
                >(setup.step) && setup.repo_url@ == setup_next_url(
                    self.step,
                    output@,
                    self.repo_url@,
                ),
                Err(e) => setup_next_step(self.step, output@, git_dir_exists) == Err::<
                    SetupStep,
                    SetupFailure,
                >(e@),
            },
    {
        match self.step {
            SetupStep::ViewRepo => {
                let step = if output.success {
                    SetupStep::QueryUrl
                } else {
                    SetupStep::CreateRepo
                };
                Ok(RepoSetup { step, repo_url: self.repo_url })
            },
            SetupStep::CreateRepo => {
                if !output.success {
                    return Err(SetupError::CreateFailed { stderr: output.stderr.clone() });
                }
                Ok(RepoSetup { step: SetupStep::QueryUrl, repo_url: self.repo_url })
            },
            SetupStep::QueryUrl => {
                let step = if git_dir_exists {
                    SetupStep::Finished
                } else {
                    SetupStep::InitRepo
                };
                Ok(RepoSetup { step, repo_url: trim(output.stdout.as_str()) })
            },
            SetupStep::InitRepo => {
                if !output.success {
                    return Err(SetupError::InitFailed);
                }
                Ok(RepoSetup { step: SetupStep::CheckoutMain, repo_url: self.repo_url })
            },
            SetupStep::CheckoutMain => Ok(
                RepoSetup { step: SetupStep::AddRemote, repo_url: self.repo_url },
            ),
            SetupStep::AddRemote => Ok(
                RepoSetup { step: SetupStep::Finished, repo_url: self.repo_url },
            ),
            SetupStep::Finished => Ok(
                RepoSetup { step: SetupStep::Finished, repo_url: self.repo_url },
            ),
        }
    }
}

/// What a failed setup says to the user.
pub open spec fn setup_message_text(failure: SetupFailure) -> Seq<char> {
    match failure {
        SetupFailure::CreateFailed { stderr } => "Failed to create GitHub repo: "@ + stderr,
        SetupFailure::InitFailed => "git init failed"@,
    }
}

impl SetupError {
    /// What the failure says to the user.
    pub fn message(&self) -> (text: String)
        ensures
            text@ == setup_message_text(self@),
    {
        match self {
            SetupError::CreateFailed { stderr } => {
                let mut text = String::from_str("Failed to create GitHub repo: ");
                text.append(stderr.as_str());
                text
            },
            SetupError::InitFailed => String::from_str("git init failed"),
        }
    }
}

} // verus!
