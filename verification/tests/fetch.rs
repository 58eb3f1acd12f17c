use rad::actions::{Action, CommandSpec};
use rad::fetch::{
    archive_file_name, choose_package_file, choose_source_dir, download_and_extract, fetch_package, is_git,
    text_contains, text_ends_with, SourceDir,
};
use rad::package::parse_package;

fn s(x: &str) -> String {
    x.to_string()
}

fn strings(xs: &[&str]) -> Vec<String> {
    xs.iter().map(|x| x.to_string()).collect()
}

fn here(program: &str, args: &[&str]) -> CommandSpec {
    CommandSpec { program: s(program), args: strings(args), dir: None, env: vec![] }
}

#[test]
fn text_helpers() {
    assert!(text_ends_with("foo.git", ".git"));
    assert!(!text_ends_with("git", ".git"));
    assert!(text_ends_with("abc", ""));
    assert!(text_contains("https://github.com/x", "github.com"));
    assert!(!text_contains("https://gitlab.com/x", "github.com"));
    assert!(text_contains("x", ""));
    assert!(!text_contains("", "x"));
}

#[test]
fn git_sources() {
    assert!(is_git("https://example.org/repo.git"));
    assert!(is_git("https://github.com/user/repo"));
    assert!(!is_git("https://github.com/user/repo/archive/v1.tar.gz"));
    assert!(is_git("https://github.com/user/repo.tar.git"));
    assert!(!is_git("https://ftp.gnu.org/gnu/make/make-4.4.tar.gz"));
}

#[test]
fn archive_names() {
    assert_eq!(archive_file_name("https://x.org/a/b/foo-1.0.tar.xz"), "foo-1.0.tar.xz");
    assert_eq!(archive_file_name("foo.zip"), "foo.zip");
    assert_eq!(archive_file_name("https://x.org/dir/"), "");
}

#[test]
fn git_source_plan() {
    let p = parse_package("name = foo\nsource = https://github.com/u/foo\nsystem = cargo").unwrap();
    let plan = download_and_extract(&p);
    assert_eq!(
        plan.steps,
        vec![
            Action::MakeDir { path: s("/tmp/rad/build/foo"), failure: s("cannot create build dir: ") },
            Action::Say(s("[rad] git detected. Cloning https://github.com/u/foo...")),
            Action::Step {
                command: here("git", &["clone", "--recursive", "https://github.com/u/foo", "/tmp/rad/build/foo"]),
                start_failure: s("git clone failed: "),
                failure: s("git clone failed"),
            },
        ]
    );
    assert_eq!(plan.source_dir, SourceDir::At(s("/tmp/rad/build/foo")));
}

#[test]
fn tarball_source_plan() {
    let p = parse_package("name = make\nversion = 4.4\nsource = https://ftp.gnu.org/gnu/make/make-4.4.tar.gz\nsystem = autotools").unwrap();
    let plan = download_and_extract(&p);
    assert_eq!(
        plan.steps,
        vec![
            Action::MakeDir { path: s("/tmp/rad/build/make"), failure: s("cannot create build dir: ") },
            Action::Say(s("[rad] downloading https://ftp.gnu.org/gnu/make/make-4.4.tar.gz...")),
            Action::Step {
                command: here(
                    "wget",
                    &["-c", "https://ftp.gnu.org/gnu/make/make-4.4.tar.gz", "-O", "/tmp/rad/build/make/make-4.4.tar.gz"]
                ),
                start_failure: s("download failed: "),
                failure: s("download failed"),
            },
            Action::Say(s("[rad] extracting make-4.4.tar.gz...")),
            Action::Step {
                command: here("tar", &["-xf", "/tmp/rad/build/make/make-4.4.tar.gz", "-C", "/tmp/rad/build/make"]),
                start_failure: s("extraction failed: "),
                failure: s("extraction failed"),
            },
        ]
    );
    assert_eq!(
        plan.source_dir,
        SourceDir::Search {
            candidates: strings(&["/tmp/rad/build/make/make-4.4", "/tmp/rad/build/make/make"]),
            within: s("/tmp/rad/build/make"),
        }
    );
}

#[test]
fn zip_source_is_unzipped() {
    let p = parse_package("name = z\nsource = http://h/z.zip\nsystem = make").unwrap();
    let plan = download_and_extract(&p);
    assert_eq!(
        plan.steps[4],
        Action::Step {
            command: here("unzip", &["/tmp/rad/build/z/z.zip", "-d", "/tmp/rad/build/z"]),
            start_failure: s("extraction failed: "),
            failure: s("extraction failed"),
        }
    );
}

#[test]
fn package_file_plan() {
    let plan = fetch_package("zlib", "https://repo.example/pkgs");
    assert_eq!(plan.local_path, "zlib.toml");
    assert_eq!(plan.local_notice, "[rad] using local zlib.toml");
    assert_eq!(plan.dest, "/tmp/rad/tomls/zlib.toml");
    assert_eq!(
        plan.steps,
        vec![
            Action::CreateDir(s("/tmp/rad/tomls")),
            Action::Say(s("[rad] fetching toml from https://repo.example/pkgs/zlib.toml repository...")),
            Action::Step {
                command: here(
                    "wget",
                    &["-q", "-O", "/tmp/rad/tomls/zlib.toml", "https://repo.example/pkgs/zlib.toml"]
                ),
                start_failure: s("wget failed: "),
                failure: s("couldn't find package 'zlib' locally or in remote repo."),
            },
        ]
    );
}

#[test]
fn local_package_file_is_preferred() {
    let (path, steps) = choose_package_file("zlib", "https://repo.example/pkgs", true);
    assert_eq!(path, "zlib.toml");
    assert_eq!(steps, vec![Action::Say(s("[rad] using local zlib.toml"))]);
    let (path, steps) = choose_package_file("zlib", "https://repo.example/pkgs", false);
    assert_eq!(path, "/tmp/rad/tomls/zlib.toml");
    assert_eq!(steps, fetch_package("zlib", "https://repo.example/pkgs").steps);
}

#[test]
fn source_directory_choice() {
    let clone = SourceDir::At(s("/tmp/rad/build/a"));
    assert_eq!(choose_source_dir(&clone, &vec![], Err(s("ignored"))), Ok(s("/tmp/rad/build/a")));
    let search = SourceDir::Search {
        candidates: vec![s("/w/a-1"), s("/w/a")],
        within: s("/w"),
    };
    assert_eq!(choose_source_dir(&search, &vec![true, true], Ok(None)), Ok(s("/w/a-1")));
    assert_eq!(choose_source_dir(&search, &vec![false, true], Ok(None)), Ok(s("/w/a")));
    assert_eq!(choose_source_dir(&search, &vec![false, false], Ok(Some(s("/w/src")))), Ok(s("/w/src")));
    assert_eq!(
        choose_source_dir(&search, &vec![false, false], Ok(None)),
        Err(s("could not find extracted source directory"))
    );
    assert_eq!(
        choose_source_dir(&search, &vec![false, false], Err(s("Permission denied"))),
        Err(s("Permission denied"))
    );
}
