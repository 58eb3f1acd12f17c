use rad::db::{db_dir, files_to_remove, manifest_path};

fn strings(xs: &[&str]) -> Vec<String> {
    xs.iter().map(|x| x.to_string()).collect()
}

#[test]
fn paths_of_the_database() {
    assert_eq!(db_dir(), "/var/lib/rad/installed");
    assert_eq!(manifest_path("zlib"), "/var/lib/rad/installed/zlib");
    assert_eq!(manifest_path("zlib-m32"), "/var/lib/rad/installed/zlib-m32");
}

#[test]
fn files_listed_in_a_manifest() {
    assert_eq!(
        files_to_remove("/usr/bin/a\n/usr/lib/b.so\n"),
        strings(&["/usr/bin/a", "/usr/lib/b.so"])
    );
    assert_eq!(files_to_remove("/usr/bin/a"), strings(&["/usr/bin/a"]));
    assert_eq!(files_to_remove(""), strings(&[]));
    assert_eq!(files_to_remove("\n"), strings(&[""]));
    assert_eq!(files_to_remove("a\n\nb"), strings(&["a", "", "b"]));
}

#[test]
fn info_index_is_never_removed() {
    assert_eq!(
        files_to_remove("/usr/share/info/dir\n/usr/share/info/make.info\n/usr/share/info/dir\n"),
        strings(&["/usr/share/info/make.info"])
    );
    assert_eq!(
        files_to_remove(" /usr/share/info/dir\n"),
        strings(&[" /usr/share/info/dir"])
    );
}

#[test]
fn carriage_returns_follow_str_lines() {
    assert_eq!(files_to_remove("a\r\nb\r\n"), strings(&["a", "b"]));
    assert_eq!(files_to_remove("a\r\nb\r"), strings(&["a", "b\r"]));
    assert_eq!(files_to_remove("/usr/share/info/dir\r\n"), strings(&[]));
    let content = "x\r\ny\n\r\nz\r";
    let expected: Vec<String> = content.lines().map(|l| l.to_string()).collect();
    assert_eq!(files_to_remove(content), expected);
}
