use whatsapp_backup::command::CommandOutput;
use whatsapp_backup::git::{
    commit_and_push, commit_and_push_files, create_github_repo, is_old_chunk_file,
    is_repo_initialized, remove_old_chunks, PushError, PushSession, PushStep, RepoSetup,
    SetupError, SetupStep,
};

fn ok() -> CommandOutput {
    CommandOutput { success: true, stdout: String::new(), stderr: String::new() }
}

fn failed(stderr: &str) -> CommandOutput {
    CommandOutput { success: false, stdout: String::new(), stderr: stderr.to_string() }
}

fn session_at(step: PushStep) -> PushSession {
    PushSession { files: vec!["a.enc".to_string()], message: "Backup ts".to_string(), step }
}

#[test]
fn repository_is_initialized_where_its_git_directory_exists() {
    assert!(is_repo_initialized(Some(true)));
    assert!(!is_repo_initialized(Some(false)));
    assert!(!is_repo_initialized(None));
}

#[test]
fn publishing_one_file_starts_with_staging() {
    let session = commit_and_push("/backups/ts.enc", "Backup ts");
    assert_eq!(session.files, vec!["/backups/ts.enc".to_string()]);
    assert_eq!(session.message, "Backup ts");
    assert_eq!(session.step, PushStep::Stage);
    assert!(session.arguments().is_empty());
}

#[test]
fn publishing_several_files_keeps_their_order() {
    let files = vec!["b.enc.001".to_string(), "a.enc.002".to_string(), "m.manifest".to_string()];
    let session = commit_and_push_files(files.clone(), "Backup ts");
    assert_eq!(session.files, files);
    assert_eq!(session.message, "Backup ts");
    assert_eq!(session.step, PushStep::Stage);
}

#[test]
fn the_steps_follow_each_other() {
    let session = commit_and_push("ts.enc", "Backup ts");
    let session = session.advance(&failed("not looked at")).unwrap();
    assert_eq!(session.step, PushStep::Add);
    assert_eq!(session.arguments(), vec!["add".to_string(), "-A".to_string()]);
    let session = session.advance(&ok()).unwrap();
    assert_eq!(session.step, PushStep::Commit);
    assert_eq!(
        session.arguments(),
        vec!["commit".to_string(), "-m".to_string(), "Backup ts".to_string()]
    );
    let session = session.advance(&ok()).unwrap();
    assert_eq!(session.step, PushStep::Push);
    assert_eq!(
        session.arguments(),
        vec!["push".to_string(), "-u".to_string(), "origin".to_string(), "main".to_string()]
    );
    let session = session.advance(&ok()).unwrap();
    assert_eq!(session.step, PushStep::Finished);
    assert!(session.arguments().is_empty());
    assert_eq!(session.files, vec!["ts.enc".to_string()]);
    let session = session.advance(&failed("late")).unwrap();
    assert_eq!(session.step, PushStep::Finished);
}

#[test]
fn a_failed_command_ends_the_work_with_what_it_said() {
    assert_eq!(
        session_at(PushStep::Add).advance(&failed("fatal: not a git repository")),
        Err(PushError::AddFailed { stderr: "fatal: not a git repository".to_string() })
    );
    assert_eq!(
        session_at(PushStep::Commit).advance(&failed("error: gpg failed")),
        Err(PushError::CommitFailed { stderr: "error: gpg failed".to_string() })
    );
    assert_eq!(
        session_at(PushStep::Push).advance(&failed("rejected")),
        Err(PushError::PushFailed { stderr: "rejected".to_string() })
    );
}

#[test]
fn nothing_to_commit_is_no_failure() {
    let session = session_at(PushStep::Commit)
        .advance(&failed("On branch main\nnothing to commit, working tree clean"))
        .unwrap();
    assert_eq!(session.step, PushStep::Push);
    assert!(session_at(PushStep::Add).advance(&failed("nothing to commit")).is_err());
    assert!(session_at(PushStep::Push).advance(&failed("nothing to commit")).is_err());
}

#[test]
fn failures_say_which_command_failed() {
    assert_eq!(
        PushError::AddFailed { stderr: "x".to_string() }.message(),
        "git add failed: x"
    );
    assert_eq!(
        PushError::CommitFailed { stderr: "y".to_string() }.message(),
        "git commit failed: y"
    );
    assert_eq!(
        PushError::PushFailed { stderr: "z".to_string() }.message(),
        "git push failed: z"
    );
}

#[test]
fn chunks_and_manifests_give_way_envelopes_stay() {
    assert!(is_old_chunk_file("ts.enc.001"));
    assert!(is_old_chunk_file("ts.enc.manifest"));
    assert!(is_old_chunk_file("x.manifest"));
    assert!(!is_old_chunk_file("ts.enc"));
    assert!(!is_old_chunk_file("a.enc.b.enc"));
    assert!(!is_old_chunk_file("README.md"));
    assert!(!is_old_chunk_file(".git"));
    assert!(!is_old_chunk_file(""));
}

#[test]
fn old_chunks_are_picked_in_order() {
    let names: Vec<String> = ["ts.enc.002", ".git", "ts.enc", "ts.enc.manifest", "ts.enc.001"]
        .iter()
        .map(|n| n.to_string())
        .collect();
    assert_eq!(
        remove_old_chunks(&names),
        vec!["ts.enc.002".to_string(), "ts.enc.manifest".to_string(), "ts.enc.001".to_string()]
    );
    assert!(remove_old_chunks(&Vec::new()).is_empty());
}

fn setup_at(step: SetupStep) -> RepoSetup {
    RepoSetup { step, repo_url: "git@github.com:me/repo.git".to_string() }
}

fn printed(stdout: &str) -> CommandOutput {
    CommandOutput { success: true, stdout: stdout.to_string(), stderr: String::new() }
}

#[test]
fn setting_up_starts_with_a_look_at_the_repository() {
    let setup = create_github_repo();
    assert_eq!(setup.step, SetupStep::ViewRepo);
    assert_eq!(setup.repo_url, "");
}

#[test]
fn an_existing_repository_is_not_created_again() {
    let setup = create_github_repo().advance(&ok(), false).unwrap();
    assert_eq!(setup.step, SetupStep::QueryUrl);
    let setup = create_github_repo().advance(&failed("not found"), false).unwrap();
    assert_eq!(setup.step, SetupStep::CreateRepo);
    let setup = setup.advance(&ok(), false).unwrap();
    assert_eq!(setup.step, SetupStep::QueryUrl);
}

#[test]
fn a_repository_that_cannot_be_created_ends_the_setup() {
    assert_eq!(
        setup_at(SetupStep::CreateRepo).advance(&failed("name already exists"), true),
        Err(SetupError::CreateFailed { stderr: "name already exists".to_string() })
    );
    assert_eq!(
        SetupError::CreateFailed { stderr: "denied".to_string() }.message(),
        "Failed to create GitHub repo: denied"
    );
}

#[test]
fn the_address_is_what_the_query_printed() {
    let setup = RepoSetup { step: SetupStep::QueryUrl, repo_url: String::new() };
    let setup = setup.advance(&printed("git@github.com:me/backup.git\n"), true).unwrap();
    assert_eq!(setup.repo_url, "git@github.com:me/backup.git");
    assert_eq!(setup.step, SetupStep::Finished);
    let setup = RepoSetup { step: SetupStep::QueryUrl, repo_url: "old".to_string() };
    let setup = setup.advance(&failed(""), false).unwrap();
    assert_eq!(setup.repo_url, "");
    assert_eq!(setup.step, SetupStep::InitRepo);
}

#[test]
fn a_fresh_working_copy_is_initialized() {
    let setup = setup_at(SetupStep::InitRepo).advance(&ok(), false).unwrap();
    assert_eq!(setup.step, SetupStep::CheckoutMain);
    let setup = setup.advance(&failed("branch exists"), false).unwrap();
    assert_eq!(setup.step, SetupStep::AddRemote);
    let setup = setup.advance(&failed("remote exists"), true).unwrap();
    assert_eq!(setup.step, SetupStep::Finished);
    assert_eq!(setup.repo_url, "git@github.com:me/repo.git");
    let setup = setup.advance(&failed("late"), false).unwrap();
    assert_eq!(setup.step, SetupStep::Finished);
}

#[test]
fn a_working_copy_that_cannot_be_initialized_ends_the_setup() {
    assert_eq!(
        setup_at(SetupStep::InitRepo).advance(&failed("permission denied"), false),
        Err(SetupError::InitFailed)
    );
    assert_eq!(SetupError::InitFailed.message(), "git init failed");
}
