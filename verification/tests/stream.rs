use versite::commands::{DeployArgs, DeployInput, GitArgs, ListArgs, ListLine, SourceFile};
use versite::git::{
    classify_failure, get_env_value, import_outcome, mode_field, name_field, Commit, CommitError,
    IdentityEnv,
};
use versite::text::{compare_text, contains_text, same_text, sanitize_identity_part};
use versite::versions::{Version, Versions};

fn no_env(now_secs: u64) -> IdentityEnv {
    IdentityEnv {
        author_name: None,
        author_email: None,
        author_date: None,
        committer_name: None,
        committer_email: None,
        committer_date: None,
        now_secs,
    }
}

fn text(bytes: Vec<u8>) -> String {
    String::from_utf8(bytes).unwrap()
}

#[test]
fn empty_commit_renders_head_and_terminator() {
    let commit = Commit::new(".", "refs/heads/gh-pages").message("hello");
    let out = text(commit.render(&no_env(1700000000)));
    assert_eq!(
        out,
        "commit refs/heads/gh-pages\n\
         author versite[bot] <versite[bot]@users.noreply.github.io> 1700000000 +0000\n\
         committer versite[bot] <versite[bot]@users.noreply.github.io> 1700000000 +0000\n\
         data 5\nhello\ndone\n"
    );
}

#[test]
fn added_files_render_in_path_order() {
    let first = Commit::new(".", "refs/heads/x")
        .add_bytes("b.txt", 0o100644, b"B".to_vec())
        .add_bytes("a.txt", 0o100644, b"A".to_vec());
    let second = Commit::new(".", "refs/heads/x")
        .add_bytes("a.txt", 0o100644, b"A".to_vec())
        .add_bytes("b.txt", 0o100644, b"B".to_vec());
    let one = text(first.render(&no_env(0)));
    let two = text(second.render(&no_env(0)));
    assert_eq!(one, two);
    let a = one.find("M 100644 inline a.txt\ndata 1\nA\n").unwrap();
    let b = one.find("M 100644 inline b.txt\ndata 1\nB\n").unwrap();
    assert!(a < b);
    assert!(one.ends_with("B\ndone\n"));
}

#[test]
fn full_commit_renders_every_part_in_order() {
    let commit = Commit::new("repo", "refs/heads/site")
        .message("Deploy\nnow")
        .author("Ann", "ann@example.org", "1 +0000")
        .committer("", "bot@example.org", "2 +0100")
        .parent("abc123")
        .delete_path("v2")
        .delete_path("v1")
        .delete_path("v2")
        .add_bytes("v1/index.html", 0o100755, b"<html>".to_vec())
        .add_bytes("v1/index.html", 0o644, vec![0, 255, 10]);
    let mut out: Vec<u8> = b"#".to_vec();
    commit.write_to(&no_env(5), &mut out);
    let mut expected: Vec<u8> = Vec::new();
    expected.extend_from_slice(
        b"#commit refs/heads/site\nauthor Ann <ann@example.org> 1 +0000\ncommitter <bot@example.org> 2 +0100\ndata 10\nDeploy\nnow\nfrom abc123\nD v1\nD v2\nM 000644 inline v1/index.html\ndata 3\n",
    );
    expected.extend_from_slice(&[0, 255, 10]);
    expected.extend_from_slice(b"\ndone\n");
    assert_eq!(out, expected);
    assert_eq!(commit.repo_dir(), "repo");
    assert_eq!(commit.refname(), "refs/heads/site");
}

#[test]
fn clearing_the_tree_renders_deleteall() {
    let commit = Commit::new(".", "refs/heads/x").delete_all().add_bytes("a", 0o100644, vec![]);
    let out = text(commit.render(&no_env(0)));
    assert!(out.contains("\ndata 0\n\ndeleteall\nM 100644 inline a\ndata 0\n\ndone\n"));
}

#[test]
fn message_length_counts_bytes() {
    let commit = Commit::new(".", "r").message("é");
    let out = text(commit.render(&no_env(0)));
    assert!(out.contains("\ndata 2\né\n"));
}

#[test]
fn identity_falls_back_field_by_field() {
    let env = IdentityEnv {
        author_name: Some("A<n>n\n".to_string()),
        author_email: None,
        author_date: Some("10 +0000".to_string()),
        committer_name: None,
        committer_email: Some("c@example.org".to_string()),
        committer_date: None,
        now_secs: 99,
    };
    let commit = Commit::new(".", "r");
    let author = commit.resolve_author(&env);
    assert_eq!(
        author,
        (
            "Ann".to_string(),
            "versite[bot]@users.noreply.github.io".to_string(),
            "10 +0000".to_string()
        )
    );
    let committer = commit.resolve_committer(&env, &author.0, &author.1, &author.2);
    assert_eq!(
        committer,
        ("Ann".to_string(), "c@example.org".to_string(), "10 +0000".to_string())
    );
    let set = Commit::new(".", "r").author("X", "x@y", "1 +0000").committer("Y", "y@z", "2 +0000");
    assert_eq!(
        set.resolve_author(&env),
        ("X".to_string(), "x@y".to_string(), "1 +0000".to_string())
    );
    assert_eq!(
        set.resolve_committer(&env, "a", "b", "c"),
        ("Y".to_string(), "y@z".to_string(), "2 +0000".to_string())
    );
    assert_eq!(
        Commit::new(".", "r").resolve_author(&no_env(99)).2,
        "99 +0000".to_string()
    );
}

#[test]
fn settings_are_sanitised_and_fallbacks_are_not() {
    assert_eq!(get_env_value(&Some("<a>\nb".to_string()), "x"), "ab");
    assert_eq!(get_env_value(&None, "<x>"), "<x>");
    assert_eq!(sanitize_identity_part("a<b>c\nd"), "abcd");
    assert_eq!(sanitize_identity_part(""), "");
    assert_eq!(sanitize_identity_part("plain é"), "plain é");
}

#[test]
fn name_field_has_no_space_for_an_empty_name() {
    assert_eq!(name_field(""), "");
    assert_eq!(name_field("Ann"), "Ann ");
}

#[test]
fn mode_field_is_padded_to_six_octal_digits() {
    assert_eq!(mode_field(0o100644), "100644");
    assert_eq!(mode_field(0o644), "000644");
    assert_eq!(mode_field(0), "000000");
    assert_eq!(mode_field(0o1234567), "1234567");
    assert_eq!(mode_field(u32::MAX), "37777777777");
}

#[test]
fn now_when_is_seconds_and_utc() {
    assert_eq!(Commit::now_when(0), "0 +0000");
    assert_eq!(Commit::now_when(1700000000), "1700000000 +0000");
    assert_eq!(Commit::now_when(u64::MAX), "18446744073709551615 +0000");
    assert_eq!(Commit::now_when(10), "10 +0000");
}

#[test]
fn non_fast_forward_is_told_apart() {
    let diagnostics = "warning: Not updating refs/heads/gh-pages (new tip abc is non-fast-forward)";
    match classify_failure("refs/heads/gh-pages", diagnostics) {
        CommitError::NonFastForward(m) => {
            assert_eq!(
                m,
                format!(
                    "git fast-import refused to update refs/heads/gh-pages (non-fast-forward). The new commit must descend from the current branch tip. Hint: base the import on the tip (set a parent) or recreate/reset the branch.\nFull error: {}",
                    diagnostics
                )
            );
        }
        other => panic!("unexpected {:?}", other),
    }
    assert!(matches!(
        classify_failure("r", "Not updating r (new tip does not contain old)"),
        CommitError::NonFastForward(_)
    ));
}

#[test]
fn other_failures_carry_the_diagnostics() {
    match classify_failure("r", "fatal: corrupt") {
        CommitError::ExecutionFailed(m) => assert_eq!(m, "git fast-import failed: fatal: corrupt"),
        other => panic!("unexpected {:?}", other),
    }
    assert!(matches!(classify_failure("r", "non-fast-forward"), CommitError::ExecutionFailed(_)));
    assert!(matches!(classify_failure("r", "Not updating"), CommitError::ExecutionFailed(_)));
    let e = classify_failure("r", "");
    assert_eq!(e.to_string(), "git fast-import failed: ");
    assert_eq!(CommitError::Io("failed to read".to_string()).to_string(), "failed to read");
    assert_eq!(CommitError::Spawn("no git".to_string()).to_string(), "no git");
}

#[test]
fn outcome_follows_the_exit() {
    assert!(import_outcome("r", true, "Not updating non-fast-forward").is_ok());
    assert!(matches!(
        import_outcome("r", false, "Not updating non-fast-forward"),
        Err(CommitError::NonFastForward(_))
    ));
    assert!(matches!(import_outcome("r", false, "boom"), Err(CommitError::ExecutionFailed(_))));
}

#[test]
fn text_helpers_agree_with_str() {
    assert!(contains_text("abcabd", "abd"));
    assert!(contains_text("abc", ""));
    assert!(contains_text("", ""));
    assert!(!contains_text("abc", "abcd"));
    assert!(!contains_text("abcabc", "acb"));
    assert!(contains_text("abc", "c"));
    assert_eq!(compare_text("a", "b"), -1);
    assert_eq!(compare_text("b", "a"), 1);
    assert_eq!(compare_text("ab", "a"), 1);
    assert_eq!(compare_text("", ""), 0);
    assert_eq!(compare_text("a", "é"), -1);
    assert!(same_text("x", "x"));
    assert!(!same_text("x", "y"));
}

fn git_args(message: Option<&str>, prefix: Option<&str>) -> GitArgs {
    GitArgs {
        remote: "origin".to_string(),
        branch: "gh-pages".to_string(),
        message: message.map(|m| m.to_string()),
        push: false,
        deploy_prefix: prefix.map(|p| p.to_string()),
    }
}

fn deploy_args() -> DeployArgs {
    DeployArgs {
        path: "site".to_string(),
        version: "1.0.0".to_string(),
        aliases: vec!["latest".to_string()],
        title: Some("One".to_string()),
    }
}

#[test]
fn remote_rev_joins_remote_and_branch() {
    assert_eq!(git_args(None, None).remote_rev(), "origin/gh-pages");
    assert_eq!(git_args(None, None).target_ref(), "refs/heads/gh-pages");
}

#[test]
fn deploy_message_defaults_to_a_summary() {
    let args = deploy_args();
    assert_eq!(
        args.message(&git_args(None, None), "abc1234"),
        "Deployed abc1234 to 1.0.0 with versite 0.1.0"
    );
    assert_eq!(
        args.message(&git_args(None, Some("docs")), "abc1234"),
        "Deployed abc1234 to 1.0.0in docs with versite 0.1.0"
    );
    assert_eq!(args.message(&git_args(Some("mine"), Some("docs")), "abc1234"), "mine");
}

#[test]
fn deployment_becomes_one_commit() {
    let args = deploy_args();
    let mut registry = Versions::default();
    args.register(&mut registry);
    assert_eq!(registry.by_alias("latest").unwrap().title, Some("One".to_string()));
    let input = DeployInput {
        parent: Some("abc".to_string()),
        versions_json: b"[]".to_vec(),
        gitignore: Some(Ok(b"target\n".to_vec())),
        has_nojekyll: false,
        version_path: "1.0.0".to_string(),
        files: vec![
            SourceFile {
                dest: "1.0.0/index.html".to_string(),
                source: "site/index.html".to_string(),
                read: Ok(b"hi".to_vec()),
            },
            SourceFile {
                dest: "1.0.0/a/b.css".to_string(),
                source: "site/a/b.css".to_string(),
                read: Ok(b"".to_vec()),
            },
        ],
    };
    let commit = args.commit(&git_args(None, None), "msg", &registry, &input).unwrap();
    let out = text(commit.render(&no_env(7)));
    assert_eq!(
        out,
        "commit refs/heads/gh-pages\n\
         author versite[bot] <versite[bot]@users.noreply.github.io> 7 +0000\n\
         committer versite[bot] <versite[bot]@users.noreply.github.io> 7 +0000\n\
         data 3\nmsg\nfrom abc\nD 1.0.0\n\
         M 100644 inline .gitignore\ndata 7\ntarget\n\n\
         M 100644 inline .nojekyll\ndata 0\n\n\
         M 100644 inline 1.0.0/a/b.css\ndata 0\n\n\
         M 100644 inline 1.0.0/index.html\ndata 2\nhi\n\
         M 100644 inline _redirects\ndata 49\n/latest/* /1.0.0/:splat 200\n/* /1.0.0/:splat 200\n\n\
         M 100644 inline versions.json\ndata 2\n[]\n\
         done\n"
    );
    let bare = DeployInput {
        parent: None,
        versions_json: b"[]".to_vec(),
        gitignore: None,
        has_nojekyll: true,
        version_path: "1.0.0".to_string(),
        files: vec![],
    };
    let second =
        text(args.commit(&git_args(None, None), "m", &registry, &bare).unwrap().render(&no_env(7)));
    assert!(!second.contains("from "));
    assert!(!second.contains(".nojekyll"));
    assert!(!second.contains(".gitignore"));
}

#[test]
fn deployment_fails_with_the_first_unreadable_file() {
    let args = deploy_args();
    let mut registry = Versions::default();
    args.register(&mut registry);
    let input = DeployInput {
        parent: None,
        versions_json: b"[]".to_vec(),
        gitignore: None,
        has_nojekyll: true,
        version_path: "1.0.0".to_string(),
        files: vec![
            SourceFile { dest: "1.0.0/a".to_string(), source: "site/a".to_string(), read: Ok(vec![]) },
            SourceFile {
                dest: "1.0.0/b".to_string(),
                source: "site/b".to_string(),
                read: Err("denied".to_string()),
            },
            SourceFile {
                dest: "1.0.0/c".to_string(),
                source: "site/c".to_string(),
                read: Err("gone".to_string()),
            },
        ],
    };
    match args.commit(&git_args(None, None), "m", &registry, &input) {
        Err(CommitError::Io(m)) => {
            assert_eq!(m, "failed to read file for fast-import: site/b: denied")
        }
        other => panic!("unexpected {:?}", other),
    }
    let ignore = DeployInput {
        parent: None,
        versions_json: b"[]".to_vec(),
        gitignore: Some(Err("busy".to_string())),
        has_nojekyll: true,
        version_path: "1.0.0".to_string(),
        files: vec![SourceFile {
            dest: "1.0.0/b".to_string(),
            source: "site/b".to_string(),
            read: Err("denied".to_string()),
        }],
    };
    match args.commit(&git_args(None, None), "m", &registry, &ignore) {
        Err(CommitError::Io(m)) => {
            assert_eq!(m, "failed to read file for fast-import: .gitignore: busy")
        }
        other => panic!("unexpected {:?}", other),
    }
}

#[test]
fn add_file_adds_what_was_read_or_fails() {
    let commit = Commit::new(".", "r").add_file("v1/a.txt", "site/a.txt", Ok(b"A".to_vec())).unwrap();
    let out = text(commit.render(&no_env(0)));
    assert!(out.contains("\nM 100644 inline v1/a.txt\ndata 1\nA\ndone\n"));
    match Commit::new(".", "r").add_file("v1/a.txt", "site/a.txt", Err("No such file".to_string())) {
        Err(CommitError::Io(m)) => {
            assert_eq!(m, "failed to read file for fast-import: site/a.txt: No such file")
        }
        other => panic!("unexpected {:?}", other),
    }
}

#[test]
fn clearing_the_tree_names_no_single_path() {
    let commit = Commit::new(".", "refs/heads/x")
        .message("m")
        .parent("abc")
        .delete_path("v1")
        .delete_all()
        .delete_path("v2")
        .add_bytes("a", 0o100644, b"A".to_vec());
    let out = text(commit.render(&no_env(0)));
    assert_eq!(out.matches("deleteall\n").count(), 1);
    assert!(!out.contains("\nD "));
    assert!(out.ends_with("data 1\nm\nfrom abc\ndeleteall\nM 100644 inline a\ndata 1\nA\ndone\n"));
    let listed = Commit::new(".", "refs/heads/x").delete_path("v2").delete_path("v1");
    let other = text(listed.render(&no_env(0)));
    assert!(!other.contains("deleteall"));
    assert!(other.ends_with("\nD v1\nD v2\ndone\n"));
}

#[test]
fn listing_lines_show_title_and_aliases() {
    let line: ListLine = ListArgs::line(
        &Version::new("1.0.0".into(), Some("One".into())),
        &vec!["stable".to_string(), "latest".to_string()],
    );
    assert_eq!(line.aliases, Some("stable, latest".to_string()));
    assert_eq!(line.to_string(), "1.0.0 (One) [stable, latest]");
    let bare = ListArgs::line(&Version::new("dev".into(), None), &vec![]);
    assert_eq!(bare.aliases, None);
    assert_eq!(bare.to_string(), "dev");
    let mut registry = Versions::default();
    registry.add("1.0.0".into(), None, vec!["stable".to_string()]);
    registry.add("dev".into(), Some("Development".into()), vec![]);
    let args = ListArgs { identifiers: vec![], json: false };
    let lines: Vec<String> = args.lines(&registry).iter().map(|l| l.to_string()).collect();
    assert_eq!(lines, vec!["dev (Development)".to_string(), "1.0.0 [stable]".to_string()]);
}
