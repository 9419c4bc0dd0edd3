use mdx::images::unique_name;

#[test]
fn same_basename_from_different_dirs_gets_suffix() {
    let mut owners = Vec::new();
    assert_eq!(unique_name("src/a/p.png", &mut owners), "p.png");
    assert_eq!(unique_name("src/b/p.png", &mut owners), "p_2.png");
    assert_eq!(unique_name("src/c/p.png", &mut owners), "p_3.png");
    assert_eq!(owners.len(), 3);
}

#[test]
fn same_source_keeps_its_name() {
    let mut owners = Vec::new();
    assert_eq!(unique_name("src/a/p.png", &mut owners), "p.png");
    assert_eq!(unique_name("src/a/p.png", &mut owners), "p.png");
    assert_eq!(owners.len(), 1);
}

#[test]
fn names_without_extension_and_dotfiles_get_plain_suffix() {
    let mut owners = Vec::new();
    assert_eq!(unique_name("x/README", &mut owners), "README");
    assert_eq!(unique_name("y/README", &mut owners), "README_2");
    assert_eq!(unique_name("x/.hidden", &mut owners), ".hidden");
    assert_eq!(unique_name("y/.hidden", &mut owners), ".hidden_2");
    assert_eq!(unique_name("x/a.tar.gz", &mut owners), "a.tar.gz");
    assert_eq!(unique_name("y/a.tar.gz", &mut owners), "a.tar_2.gz");
}
