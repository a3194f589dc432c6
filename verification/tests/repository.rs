use gitlet::filesystem::{FileSystem, Kind};
use gitlet::repository::{
    find_dir, init, repo_dir, repo_dir_existing, repo_file, repo_file_existing, repo_find,
    repo_find_or_panic, repo_path, resolve_dir, write_repo_file, RepoInitError, Repository,
};

fn path(parts: &[&str]) -> Vec<String> {
    parts.iter().map(|s| s.to_string()).collect()
}

const CONFIG: &[u8] = b"[core]\nrepositoryformatversion=0\nfilemode=false\nbare=false\n";

fn with_config(text: &[u8]) -> FileSystem {
    let mut fs = FileSystem::new();
    assert!(fs.create_dir_all(&path(&["w", ".git"])));
    assert!(fs.write(&path(&["w", ".git", "config"]), text.to_vec()));
    fs
}

#[test]
fn init_lays_out_the_repository() {
    let mut fs = FileSystem::new();
    let repo = init(&mut fs, path(&["home", "me", "project"])).unwrap();
    assert_eq!(repo.worktree(), &path(&["home", "me", "project"]));
    assert_eq!(repo.gitdir(), &path(&["home", "me", "project", ".git"]));
    for dir in [vec!["branches"], vec!["objects"], vec!["refs"], vec!["refs", "tags"], vec!["refs", "heads"]] {
        let mut full = path(&["home", "me", "project", ".git"]);
        full.extend(path(&dir));
        assert_eq!(fs.kind(&full), Kind::Dir);
    }
    assert_eq!(
        fs.read(&path(&["home", "me", "project", ".git", "description"])).unwrap().as_slice(),
        b"Unnamed repository; edit this file 'description' to name the repository.\n"
    );
    assert_eq!(
        fs.read(&path(&["home", "me", "project", ".git", "HEAD"])).unwrap().as_slice(),
        b"ref: refs/heads/master\n"
    );
    assert_eq!(
        fs.read(&path(&["home", "me", "project", ".git", "config"])).unwrap().as_slice(),
        CONFIG
    );
}

#[test]
fn init_makes_records_in_order() {
    let mut fs = FileSystem::new();
    init(&mut fs, path(&["p"])).unwrap();
    let made: Vec<Vec<String>> = (0..fs.len()).map(|i| fs.record(i).path.clone()).collect();
    assert_eq!(
        made,
        vec![
            path(&["p"]),
            path(&["p", ".git"]),
            path(&["p", ".git", "branches"]),
            path(&["p", ".git", "objects"]),
            path(&["p", ".git", "refs"]),
            path(&["p", ".git", "refs", "tags"]),
            path(&["p", ".git", "refs", "heads"]),
            path(&["p", ".git", "description"]),
            path(&["p", ".git", "HEAD"]),
            path(&["p", ".git", "config"]),
        ]
    );
}

#[test]
fn init_gives_the_default_configuration() {
    let mut fs = FileSystem::new();
    let repo = Repository::new(&mut fs, path(&["p"])).unwrap();
    assert_eq!(repo.config().version(), Ok(0));
    assert_eq!(repo.config().get("core", "bare"), Some("false".to_string()));
}

#[test]
fn init_in_an_existing_directory() {
    let mut fs = FileSystem::new();
    assert!(fs.create_dir_all(&path(&["p"])));
    assert!(fs.write(&path(&["p", "README"]), b"hi".to_vec()));
    init(&mut fs, path(&["p"])).unwrap();
    assert_eq!(fs.read(&path(&["p", "README"])).unwrap().as_slice(), b"hi");
    assert_eq!(fs.kind(&path(&["p", ".git", "objects"])), Kind::Dir);
}

#[test]
fn init_at_the_root() {
    let mut fs = FileSystem::new();
    let repo = init(&mut fs, Vec::new()).unwrap();
    assert_eq!(repo.gitdir(), &path(&[".git"]));
    assert_eq!(fs.kind(&path(&[".git", "refs", "heads"])), Kind::Dir);
}

#[test]
fn init_then_discover() {
    let mut fs = FileSystem::new();
    init(&mut fs, path(&["a", "b"])).unwrap();
    let repo = repo_find(&fs, path(&["a", "b"])).unwrap();
    assert_eq!(repo.config().version(), Ok(0));
    assert_eq!(repo.worktree(), &path(&["a", "b"]));
    assert_eq!(repo.gitdir(), &path(&["a", "b", ".git"]));
}

#[test]
fn init_twice_writes_the_files_anew() {
    let mut fs = FileSystem::new();
    init(&mut fs, path(&["p"])).unwrap();
    assert!(fs.write(&path(&["p", ".git", "description"]), b"mine".to_vec()));
    assert!(fs.write(&path(&["p", ".git", "config"]), b"[core]\nrepositoryformatversion=7\n".to_vec()));
    assert!(fs.write(&path(&["p", ".git", "objects", "keep"]), b"x".to_vec()));
    let records = fs.len();
    let again = init(&mut fs, path(&["p"])).unwrap();
    assert_eq!(again.worktree(), &path(&["p"]));
    assert_eq!(fs.len(), records + 3);
    assert_eq!(
        fs.read(&path(&["p", ".git", "description"])).unwrap().as_slice(),
        b"Unnamed repository; edit this file 'description' to name the repository.\n"
    );
    assert_eq!(fs.read(&path(&["p", ".git", "HEAD"])).unwrap().as_slice(), b"ref: refs/heads/master\n");
    assert_eq!(fs.read(&path(&["p", ".git", "config"])).unwrap().as_slice(), CONFIG);
    assert_eq!(fs.read(&path(&["p", ".git", "objects", "keep"])).unwrap().as_slice(), b"x");
    assert_eq!(repo_find(&fs, path(&["p"])).unwrap().config().version(), Ok(0));
}

#[test]
fn init_where_a_file_stands() {
    let mut fs = FileSystem::new();
    assert!(fs.write(&path(&["p"]), b"x".to_vec()));
    assert_eq!(init(&mut fs, path(&["p"])).unwrap_err(), RepoInitError::NotADirectory);
    assert_eq!(fs.len(), 1);
}

#[test]
fn init_below_a_file() {
    let mut fs = FileSystem::new();
    assert!(fs.write(&path(&["p"]), b"x".to_vec()));
    assert_eq!(init(&mut fs, path(&["p", "q"])).unwrap_err(), RepoInitError::CreateDirFailed);
    assert_eq!(fs.len(), 1);
}

#[test]
fn init_where_the_control_directory_is_a_file() {
    let mut fs = FileSystem::new();
    assert!(fs.create_dir_all(&path(&["p"])));
    assert!(fs.write(&path(&["p", ".git"]), b"gitdir: elsewhere".to_vec()));
    assert_eq!(init(&mut fs, path(&["p"])).unwrap_err(), RepoInitError::CreateDirFailed);
    assert_eq!(fs.len(), 2);
}

#[test]
fn init_where_a_directory_slot_is_a_file() {
    let mut fs = FileSystem::new();
    assert!(fs.create_dir_all(&path(&["p", ".git"])));
    assert!(fs.write(&path(&["p", ".git", "objects"]), b"x".to_vec()));
    assert_eq!(init(&mut fs, path(&["p"])).unwrap_err(), RepoInitError::NotADirectory);
    assert_eq!(fs.kind(&path(&["p", ".git", "branches"])), Kind::Dir);
    assert_eq!(fs.kind(&path(&["p", ".git", "refs"])), Kind::Missing);
}

#[test]
fn init_where_a_file_slot_is_a_directory() {
    let mut fs = FileSystem::new();
    assert!(fs.create_dir_all(&path(&["p", ".git", "HEAD"])));
    assert_eq!(init(&mut fs, path(&["p"])).unwrap_err(), RepoInitError::WriteFailed);
    assert_eq!(fs.kind(&path(&["p", ".git", "description"])), Kind::File);
    assert_eq!(fs.kind(&path(&["p", ".git", "config"])), Kind::Missing);
}

#[test]
fn open_reads_the_configuration() {
    let fs = with_config(b"[core]\nrepositoryformatversion=0\nbare=true\n");
    let repo = Repository::from_path(&fs, path(&["w"])).unwrap();
    assert_eq!(repo.worktree(), &path(&["w"]));
    assert_eq!(repo.gitdir(), &path(&["w", ".git"]));
    assert_eq!(repo.config().get("core", "bare"), Some("true".to_string()));
}

#[test]
fn open_without_control_directory() {
    let mut fs = FileSystem::new();
    assert!(fs.create_dir_all(&path(&["w"])));
    assert_eq!(Repository::from_path(&fs, path(&["w"])).unwrap_err(), RepoInitError::NotAGitRepository);
    assert!(fs.write(&path(&["w", ".git"]), b"x".to_vec()));
    assert_eq!(Repository::from_path(&fs, path(&["w"])).unwrap_err(), RepoInitError::NotAGitRepository);
}

#[test]
fn open_does_not_search_upwards() {
    let mut fs = FileSystem::new();
    init(&mut fs, path(&["w"])).unwrap();
    assert!(fs.create_dir_all(&path(&["w", "sub"])));
    assert_eq!(
        Repository::from_path(&fs, path(&["w", "sub"])).unwrap_err(),
        RepoInitError::NotAGitRepository
    );
}

#[test]
fn open_without_configuration() {
    let mut fs = FileSystem::new();
    assert!(fs.create_dir_all(&path(&["w", ".git"])));
    assert_eq!(Repository::from_path(&fs, path(&["w"])).unwrap_err(), RepoInitError::ConfigFileMissing);
    assert!(fs.create_dir_all(&path(&["w", ".git", "config"])));
    assert_eq!(Repository::from_path(&fs, path(&["w"])).unwrap_err(), RepoInitError::ConfigFileMissing);
}

#[test]
fn open_with_broken_configuration() {
    let fs = with_config(b"[core\n");
    assert_eq!(Repository::from_path(&fs, path(&["w"])).unwrap_err(), RepoInitError::ConfigFileMalformed);
}

#[test]
fn open_with_unsupported_version() {
    for text in [
        &b"[core]\nrepositoryformatversion=1\n"[..],
        &b"[core]\nrepositoryformatversion=-1\n"[..],
        &b"[core]\nrepositoryformatversion=zero\n"[..],
        &b"[core]\nbare=false\n"[..],
        &b""[..],
    ] {
        let fs = with_config(text);
        assert_eq!(Repository::from_path(&fs, path(&["w"])).unwrap_err(), RepoInitError::UnsupportedVersion);
    }
}

#[test]
fn open_accepts_other_spellings_of_zero() {
    let fs = with_config(b"[core]\nrepositoryformatversion=+00\n");
    assert!(Repository::from_path(&fs, path(&["w"])).is_ok());
}

#[test]
fn discover_from_below() {
    let mut fs = FileSystem::new();
    init(&mut fs, path(&["home", "p"])).unwrap();
    assert!(fs.create_dir_all(&path(&["home", "p", "src", "deep"])));
    let at_root = repo_find(&fs, path(&["home", "p"])).unwrap();
    for start in [
        path(&["home", "p", "src"]),
        path(&["home", "p", "src", "deep"]),
        path(&["home", "p", "not", "there", "at", "all"]),
        path(&["home", "p", ".git", "refs"]),
    ] {
        let repo = repo_find(&fs, start).unwrap();
        assert_eq!(repo.worktree(), at_root.worktree());
        assert_eq!(repo.gitdir(), at_root.gitdir());
    }
}

#[test]
fn discover_takes_the_nearest_repository() {
    let mut fs = FileSystem::new();
    init(&mut fs, path(&["outer"])).unwrap();
    init(&mut fs, path(&["outer", "inner"])).unwrap();
    assert_eq!(repo_find(&fs, path(&["outer", "inner", "x"])).unwrap().worktree(), &path(&["outer", "inner"]));
    assert_eq!(repo_find(&fs, path(&["outer", "other"])).unwrap().worktree(), &path(&["outer"]));
}

#[test]
fn discover_stops_at_a_broken_repository() {
    let mut fs = FileSystem::new();
    init(&mut fs, path(&["outer"])).unwrap();
    assert!(fs.create_dir_all(&path(&["outer", "inner", ".git"])));
    assert_eq!(
        repo_find(&fs, path(&["outer", "inner", "x"])).unwrap_err(),
        RepoInitError::ConfigFileMissing
    );
}

#[test]
fn discover_finds_nothing() {
    let mut fs = FileSystem::new();
    assert_eq!(repo_find(&fs, path(&["a", "b", "c"])).unwrap_err(), RepoInitError::NotAGitRepository);
    assert_eq!(repo_find(&fs, Vec::new()).unwrap_err(), RepoInitError::NotAGitRepository);
    init(&mut fs, path(&["a", "b"])).unwrap();
    assert_eq!(repo_find(&fs, path(&["a", "c"])).unwrap_err(), RepoInitError::NotAGitRepository);
    assert_eq!(repo_find(&fs, path(&["a"])).unwrap_err(), RepoInitError::NotAGitRepository);
}

#[test]
fn discover_at_the_root() {
    let mut fs = FileSystem::new();
    init(&mut fs, Vec::new()).unwrap();
    assert_eq!(repo_find(&fs, path(&["x", "y"])).unwrap().worktree(), &Vec::<String>::new());
}

#[test]
fn discover_ignores_a_control_file() {
    let mut fs = FileSystem::new();
    init(&mut fs, path(&["a"])).unwrap();
    assert!(fs.create_dir_all(&path(&["a", "b"])));
    assert!(fs.write(&path(&["a", "b", ".git"]), b"x".to_vec()));
    assert_eq!(repo_find(&fs, path(&["a", "b"])).unwrap().worktree(), &path(&["a"]));
}

#[test]
fn find_or_panic_gives_the_repository() {
    let mut fs = FileSystem::new();
    init(&mut fs, path(&["a"])).unwrap();
    assert!(repo_find(&fs, path(&["a", "b"])).is_ok());
    let repo = repo_find_or_panic(&fs, path(&["a", "b"]));
    assert_eq!(repo.worktree(), &path(&["a"]));
}

#[test]
fn repo_path_joins_below_the_control_directory() {
    let repo = Repository::naive_from_path(path(&["w"]));
    assert_eq!(repo_path(&repo, &path(&["refs", "heads"])), path(&["w", ".git", "refs", "heads"]));
    assert_eq!(repo_path(&repo, &Vec::new()), path(&["w", ".git"]));
}

#[test]
fn naive_from_path_looks_nothing_up() {
    let repo = Repository::naive_from_path(path(&["nowhere"]));
    assert_eq!(repo.worktree(), &path(&["nowhere"]));
    assert_eq!(repo.gitdir(), &path(&["nowhere", ".git"]));
    assert_eq!(repo.config().version(), Ok(0));
}

#[test]
fn repo_dir_finds_makes_and_probes() {
    let mut fs = FileSystem::new();
    let repo = Repository::naive_from_path(path(&["w"]));
    assert_eq!(repo_dir(&mut fs, &repo, &path(&["refs", "tags"]), false), Ok(None));
    assert_eq!(fs.len(), 0);
    assert_eq!(
        repo_dir(&mut fs, &repo, &path(&["refs", "tags"]), true),
        Ok(Some(path(&["w", ".git", "refs", "tags"])))
    );
    assert_eq!(fs.len(), 4);
    assert_eq!(
        repo_dir(&mut fs, &repo, &path(&["refs"]), false),
        Ok(Some(path(&["w", ".git", "refs"])))
    );
    assert_eq!(repo_dir_existing(&fs, &repo, &path(&["refs"])), Ok(Some(path(&["w", ".git", "refs"]))));
    assert_eq!(repo_dir_existing(&fs, &repo, &path(&["objects"])), Ok(None));
}

#[test]
fn repo_dir_conflicts() {
    let mut fs = FileSystem::new();
    let repo = Repository::naive_from_path(path(&["w"]));
    assert!(fs.create_dir_all(&path(&["w", ".git"])));
    assert!(fs.write(&path(&["w", ".git", "refs"]), b"x".to_vec()));
    assert_eq!(repo_dir(&mut fs, &repo, &path(&["refs"]), true), Err(RepoInitError::NotADirectory));
    assert_eq!(repo_dir(&mut fs, &repo, &path(&["refs"]), false), Err(RepoInitError::NotADirectory));
    assert_eq!(repo_dir(&mut fs, &repo, &path(&["refs", "tags"]), true), Err(RepoInitError::CreateDirFailed));
    assert_eq!(repo_dir(&mut fs, &repo, &path(&["refs", "tags"]), false), Ok(None));
    assert_eq!(repo_dir_existing(&fs, &repo, &path(&["refs"])), Err(RepoInitError::NotADirectory));
}

#[test]
fn repo_file_resolves_the_parent_only() {
    let mut fs = FileSystem::new();
    let repo = Repository::naive_from_path(path(&["w"]));
    assert_eq!(repo_file(&mut fs, &repo, &path(&["objects", "ab", "cd"]), false), Ok(None));
    assert_eq!(repo_file_existing(&fs, &repo, &path(&["objects", "ab", "cd"])), Ok(None));
    assert_eq!(
        repo_file(&mut fs, &repo, &path(&["objects", "ab", "cd"]), true),
        Ok(Some(path(&["w", ".git", "objects", "ab", "cd"])))
    );
    assert_eq!(fs.kind(&path(&["w", ".git", "objects", "ab"])), Kind::Dir);
    assert_eq!(fs.kind(&path(&["w", ".git", "objects", "ab", "cd"])), Kind::Missing);
    assert_eq!(
        repo_file_existing(&fs, &repo, &path(&["objects", "ab", "cd"])),
        Ok(Some(path(&["w", ".git", "objects", "ab", "cd"])))
    );
    assert!(fs.write(&path(&["w", ".git", "objects", "ab", "cd"]), b"x".to_vec()));
    assert_eq!(
        repo_file(&mut fs, &repo, &path(&["objects", "ab", "cd", "ef"]), true),
        Err(RepoInitError::NotADirectory)
    );
}

#[test]
fn resolve_dir_on_any_path() {
    let mut fs = FileSystem::new();
    assert_eq!(find_dir(&fs, &path(&["x"])), Ok(None));
    assert_eq!(resolve_dir(&mut fs, &path(&["x", "y"]), true), Ok(Some(path(&["x", "y"]))));
    assert_eq!(find_dir(&fs, &path(&["x"])), Ok(Some(path(&["x"]))));
    assert_eq!(resolve_dir(&mut fs, &Vec::new(), false), Ok(Some(Vec::new())));
}

#[test]
fn write_repo_file_needs_the_control_directory() {
    let mut fs = FileSystem::new();
    let repo = Repository::naive_from_path(path(&["w"]));
    assert_eq!(
        write_repo_file(&mut fs, &repo, "HEAD", b"x".to_vec()),
        Err(RepoInitError::NotAGitRepository)
    );
    assert!(fs.create_dir_all(&path(&["w", ".git", "dir"])));
    assert_eq!(write_repo_file(&mut fs, &repo, "HEAD", b"x".to_vec()), Ok(()));
    assert_eq!(fs.read(&path(&["w", ".git", "HEAD"])).unwrap().as_slice(), b"x");
    assert_eq!(write_repo_file(&mut fs, &repo, "dir", b"x".to_vec()), Err(RepoInitError::WriteFailed));
}

#[test]
fn descriptions() {
    assert_eq!(RepoInitError::NotAGitRepository.description(), "Not a git repository.");
    assert_eq!(RepoInitError::ConfigFileMissing.description(), "Configuration file missing.");
    assert_eq!(RepoInitError::ConfigFileMalformed.description(), "Configuration file missing.");
    assert_eq!(RepoInitError::UnsupportedVersion.description(), "Unsupported repository version.");
    assert_eq!(RepoInitError::NotADirectory.description(), "Not a directory.");
    assert_ne!(RepoInitError::CreateDirFailed.description(), RepoInitError::WriteFailed.description());
}
