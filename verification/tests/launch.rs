use mcp_federation::launch::{augmented_path, candidates, child_env, pick_resolved, resolve_command};
use mcp_federation::name_map::NameMap;

fn s(x: &str) -> String {
    x.to_string()
}

// ── resolve_command ───────────────────────────────────────────────────────

#[test]
fn resolve_command_absolute_path_returned_unchanged() {
    // Absolute paths bypass all resolution logic.
    assert_eq!(resolve_command("/usr/bin/env", None, None, None), "/usr/bin/env");
    assert_eq!(resolve_command("/bin/bash", None, None, None), "/bin/bash");
}

#[test]
fn resolve_command_known_binary_returns_nonempty() {
    // "bash" exists on every CI/dev machine — we just need it to resolve to something.
    let resolved = resolve_command("bash", None, None, None);
    assert!(!resolved.is_empty(), "resolve_command('bash') should return non-empty");
    // Should be an absolute path or the bare name unchanged
    assert!(resolved == "bash" || resolved.starts_with('/'), "got: {resolved}");
}

#[test]
fn resolve_command_unknown_returns_input_unchanged() {
    // A completely made-up command falls through all probes and returns as-is.
    let result = resolve_command("zzz_no_such_binary_xyz_999", None, None, None);
    assert_eq!(result, "zzz_no_such_binary_xyz_999");
}

#[test]
fn resolve_command_finds_sh_in_a_system_dir() {
    let resolved = resolve_command("sh", None, None, None);
    assert!(resolved == "/usr/bin/sh" || resolved == "/bin/sh", "got: {resolved}");
}

#[test]
fn resolve_command_prefers_an_existing_which_result() {
    let resolved = resolve_command("sh", None, None, Some(s("/bin/sh")));
    assert_eq!(resolved, "/bin/sh");
    // A `which` result that does not exist is ignored.
    let resolved = resolve_command("zzz_no_such_binary_xyz_999", None, None, Some(s("/nonexistent/zzz")));
    assert_eq!(resolved, "zzz_no_such_binary_xyz_999");
}

#[test]
fn candidates_without_home() {
    let c = candidates("node", None, Some("v20"));
    assert_eq!(c, vec![s("/opt/homebrew/bin/node"), s("/usr/local/bin/node"), s("/usr/bin/node"), s("/bin/node")]);
}

#[test]
fn candidates_with_home_and_nvm_alias() {
    let c = candidates("node", Some("/h"), Some(" 20.1.0\n"));
    assert_eq!(
        c,
        vec![
            s("/opt/homebrew/bin/node"),
            s("/usr/local/bin/node"),
            s("/usr/bin/node"),
            s("/bin/node"),
            s("/h/.nvm/versions/node/20.1.0/bin/node"),
            s("/h/.nvm/versions/node/v20.1.0/bin/node"),
            s("/h/.local/bin/node"),
            s("/h/.volta/bin/node"),
            s("/h/.fnm/current/bin/node"),
        ]
    );
    // A version that already starts with `v` is not prefixed again.
    let c = candidates("node", Some("/h"), Some("v18.0.0"));
    assert_eq!(c.len(), 8);
    assert_eq!(c[4], "/h/.nvm/versions/node/v18.0.0/bin/node");
    assert_eq!(c[5], "/h/.local/bin/node");
    // Without an nvm alias there are no nvm candidates.
    assert_eq!(candidates("node", Some("/h"), None).len(), 7);
}

#[test]
fn pick_resolved_order_of_preference() {
    let cands = vec![s("/a/x"), s("/b/x"), s("/c/x")];
    assert_eq!(pick_resolved("x", None, false, &cands, &vec![false, true, true]), "/b/x");
    assert_eq!(pick_resolved("x", Some(s("/w/x")), true, &cands, &vec![false, true, true]), "/w/x");
    assert_eq!(pick_resolved("x", Some(s("/w/x")), false, &cands, &vec![false, false, true]), "/c/x");
    assert_eq!(pick_resolved("x", None, false, &cands, &vec![false, false, false]), "x");
    assert_eq!(pick_resolved("/abs/x", Some(s("/w/x")), true, &cands, &vec![true, true, true]), "/abs/x");
}

// ── augmented_path ────────────────────────────────────────────────────────

#[test]
fn augmented_path_contains_homebrew_bin() {
    let path = augmented_path("/usr/bin:/bin", "/home/user", &vec![]);
    // On macOS the output should include at least one of the standard dirs
    assert!(
        path.contains("/opt/homebrew/bin") || path.contains("/usr/local/bin") || path.contains("/usr/bin"),
        "augmented_path missing expected dirs: {path}",
    );
}

#[test]
fn augmented_path_has_no_empty_segments() {
    let path = augmented_path("::/usr/bin::/bin:", "/home/user", &vec![s("/home/user/.nvm/versions/node/v20/bin")]);
    for segment in path.split(':') {
        assert!(!segment.is_empty(), "empty segment in PATH: {path}");
    }
}

#[test]
fn augmented_path_does_not_add_duplicate_extra_dirs() {
    // The extras we inject should not appear twice.
    let path = augmented_path("/usr/local/bin:/usr/bin:/opt/homebrew/bin", "/home/user", &vec![]);
    let mut seen = std::collections::HashSet::new();
    for candidate in ["/opt/homebrew/bin", "/opt/homebrew/sbin", "/usr/local/bin"] {
        if path.contains(candidate) {
            assert!(seen.insert(candidate), "extra dir appears more than once: {candidate}");
        }
    }
    for candidate in ["/opt/homebrew/bin", "/opt/homebrew/sbin", "/usr/local/bin"] {
        assert_eq!(path.split(':').filter(|p| *p == candidate).count(), 1, "{candidate} in {path}");
    }
}

#[test]
fn augmented_path_exact_value() {
    let path = augmented_path("/usr/bin:/usr/local/bin", "/h", &vec![s("/h/.nvm/versions/node/v20/bin")]);
    assert_eq!(
        path,
        "/h/.local/bin:/h/.volta/bin:/h/.fnm/current/bin:/opt/homebrew/bin:/opt/homebrew/sbin:/h/.nvm/versions/node/v20/bin:/usr/bin:/usr/local/bin"
    );
}

#[test]
fn augmented_path_keeps_existing_duplicates() {
    // Entries the PATH already held twice stay twice; nothing is added for them.
    let path = augmented_path("/usr/local/bin:/usr/local/bin", "/h", &vec![]);
    assert_eq!(path.split(':').filter(|p| *p == "/usr/local/bin").count(), 2);
    assert!(path.ends_with(":/usr/local/bin:/usr/local/bin"));
}

#[test]
fn augmented_path_of_empty_path() {
    let path = augmented_path("", "/h", &vec![]);
    assert_eq!(path, "/h/.local/bin:/h/.volta/bin:/h/.fnm/current/bin:/opt/homebrew/bin:/opt/homebrew/sbin:/usr/local/bin");
}

// ── the child environment ─────────────────────────────────────────────────

#[test]
fn child_env_sets_path_docker_host_then_config_vars() {
    let mut env = NameMap::new();
    env.insert(s("API_KEY"), s("k"));
    env.insert(s("PATH"), s("/custom"));
    let exposed = vec![(s("OTHER"), s("1")), (s("DOCKER_HOST"), s("unix:///d.sock")), (s("DOCKER_HOST"), s("later"))];
    let vars = child_env(&env, s("/p"), &exposed);
    assert_eq!(
        vars,
        vec![
            (s("PATH"), s("/p")),
            (s("DOCKER_HOST"), s("unix:///d.sock")),
            (s("API_KEY"), s("k")),
            (s("PATH"), s("/custom")),
        ]
    );
    let vars = child_env(&NameMap::new(), s("/p"), &vec![]);
    assert_eq!(vars, vec![(s("PATH"), s("/p"))]);
}

#[test]
fn augmented_path_twice_is_unchanged() {
    let nvm = vec![s("/h/.nvm/versions/node/v20/bin"), s("/usr/local/bin")];
    let once = augmented_path("/usr/bin::/bin:", "/h", &nvm);
    let twice = augmented_path(&once, "/h", &nvm);
    assert_eq!(twice, once);
}

#[test]
fn augmented_path_entries_distinct() {
    // An nvm directory equal to a fixed extra one is added only once, at the
    // place of its last listing (the extras are prepended from the back).
    let nvm = vec![s("/opt/homebrew/bin"), s("/h/n/bin"), s("/h/n/bin")];
    let p = augmented_path("/usr/bin:/opt/homebrew/sbin", "/h", &nvm);
    let segs: Vec<&str> = p.split(':').collect();
    let mut seen = std::collections::HashSet::new();
    for seg in &segs {
        assert!(seen.insert(*seg), "duplicate entry {seg} in {p}");
    }
    assert_eq!(
        p,
        "/h/.local/bin:/h/.volta/bin:/h/.fnm/current/bin:/usr/local/bin:/opt/homebrew/bin:/h/n/bin:/usr/bin:/opt/homebrew/sbin"
    );
}

#[test]
fn resolve_command_result_is_command_or_absolute() {
    for cmd in ["bash", "zzz_no_such_binary_xyz_999", "sh", "/bin/sh"] {
        let r = resolve_command(cmd, Some("/nonexistent-home"), Some("v1\n"), None);
        assert!(r == cmd || r.starts_with('/'), "got {r}");
        assert!(!r.is_empty());
    }
}
