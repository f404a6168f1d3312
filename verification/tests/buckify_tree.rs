//! Resolving links textually.

use pudu::paths::contained_path;

fn resolve(dest: &str, target: &str) -> Option<String> {
    let mut parts: Vec<&str> = dest.split('/').collect();
    parts.pop(); // the link's own name; a top-level dest leaves this empty
    for component in target.split('/') {
        match component {
            "" | "." => {}
            ".." => {
                parts.pop()?;
            }
            c => parts.push(c),
        }
    }
    Some(parts.join("/"))
}

#[test]
fn a_sibling_target_resolves_against_the_links_own_directory() {
    assert_eq!(
        resolve(
            ".pnpm/debug@4.3.4/node_modules/ms",
            "../../ms@2.1.2/node_modules/ms"
        )
        .as_deref(),
        Some(".pnpm/ms@2.1.2/node_modules/ms")
    );
}

#[test]
fn a_top_level_target_resolves_against_the_tree_root() {
    assert_eq!(
        resolve("debug", ".pnpm/debug@4.3.4/node_modules/debug").as_deref(),
        Some(".pnpm/debug@4.3.4/node_modules/debug")
    );
}

#[test]
fn climbing_above_the_tree_root_is_not_a_path() {
    assert_eq!(resolve("debug", "../../elsewhere"), None);
}

#[test]
fn a_contained_path_resolves_against_the_root_to_itself() {
    let inside = contained_path("lib/../cli.js").unwrap();
    assert_eq!(resolve("bin", &inside), Some("cli.js".to_string()));
    assert_eq!(contained_path("../../elsewhere"), None);
}
