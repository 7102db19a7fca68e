use da::remote::{clean_command, remote_listing, shell_quote, validate_remote_dir, RemoteDirError};

#[test]
fn rejects_root() {
    assert!(validate_remote_dir("/").is_err());
}

#[test]
fn rejects_empty() {
    assert!(validate_remote_dir("   ").is_err());
}

#[test]
fn accepts_normal_path() {
    assert!(validate_remote_dir("/var/www/app").is_ok());
}

#[test]
fn rejects_root_with_surrounding_whitespace() {
    assert_eq!(validate_remote_dir(" \t/\n"), Err(RemoteDirError::Root));
    assert_eq!(validate_remote_dir(""), Err(RemoteDirError::Empty));
    assert_eq!(validate_remote_dir("\u{3000}\u{a0}"), Err(RemoteDirError::Empty));
}

#[test]
fn accepts_paths_that_only_start_with_root() {
    assert_eq!(validate_remote_dir("//"), Ok(()));
    assert_eq!(validate_remote_dir("/x"), Ok(()));
    assert_eq!(validate_remote_dir(" app "), Ok(()));
}

#[test]
fn error_messages_name_the_problem() {
    assert_eq!(RemoteDirError::Empty.message(), "remote_dir vazio");
    assert_eq!(
        RemoteDirError::Root.message(),
        "remote_dir '/' não permitido (apagaria a raiz)"
    );
}

#[test]
fn clean_command_wipes_inside_the_dir() {
    assert_eq!(
        clean_command("/var/www/app").unwrap(),
        "rm -rf '/var/www/app'/* '/var/www/app'/.[!.]* 2>/dev/null; true"
    );
    // Surrounding blanks stay inside the quoted directory: no `/*` of its own.
    assert_eq!(
        clean_command("/srv ").unwrap(),
        "rm -rf '/srv '/* '/srv '/.[!.]* 2>/dev/null; true"
    );
}

#[test]
fn clean_command_refuses_root_and_blank() {
    assert_eq!(clean_command("/"), Err(RemoteDirError::Root));
    assert_eq!(clean_command("  "), Err(RemoteDirError::Empty));
}

#[test]
fn shell_quote_makes_one_word() {
    assert_eq!(shell_quote("/var/www/app"), "'/var/www/app'");
    assert_eq!(shell_quote(""), "''");
    assert_eq!(shell_quote("it's"), "'it'\\''s'");
    assert_eq!(shell_quote("a b;rm -rf /"), "'a b;rm -rf /'");
}

#[test]
fn find_output_becomes_relative_paths() {
    let out = "./index.html\n./assets/app.js\n\n./.env\nplain\n./\n";
    assert_eq!(remote_listing(out), vec!["index.html", "assets/app.js", ".env", "plain", ""]);
    assert!(remote_listing("").is_empty());
    assert_eq!(remote_listing("./a\r\n./b"), vec!["a", "b"]);
}
