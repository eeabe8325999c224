use vibe_terminal::osc::{OscEvent, OscParser};
use vibe_terminal::zdotdir::{
    generate_nonce, render_zshrc, text_from_bytes, Provisioner, NONCE_LEN, ZDOTDIR_VARIABLE,
};

#[test]
fn nonce_is_32_letters_and_digits() {
    for _ in 0..50 {
        let nonce = generate_nonce();
        assert_eq!(NONCE_LEN, 32);
        assert_eq!(nonce.len(), 32);
        assert_eq!(nonce.chars().count(), 32);
        assert!(nonce.chars().all(|c| c.is_ascii_alphanumeric()), "{}", nonce);
    }
}

#[test]
fn nonces_differ() {
    let first = generate_nonce();
    let second = generate_nonce();
    let third = generate_nonce();
    assert_ne!(first, second);
    assert_ne!(second, third);
    assert_ne!(first, third);
    let distinct: std::collections::HashSet<char> = first.chars().chain(second.chars()).collect();
    assert!(distinct.len() > 1);
}

#[test]
fn provisioner_of_a_user_lives_in_the_home_directory() {
    let provisioner = Provisioner::under_home("/home/ada");
    assert_eq!(provisioner.zshrc_root, "/home/ada/.vibecodings/zshrc");
    assert_eq!(provisioner.integration_path, "/home/ada/vibe-terminal/shell-integration");
}

#[test]
fn provisioner_keeps_the_directories_it_is_given() {
    let provisioner = Provisioner::new("/tmp/t/zshrc".to_string(), "/tmp/t/hooks".to_string());
    assert_eq!(provisioner.zshrc_root, "/tmp/t/zshrc");
    assert_eq!(provisioner.integration_path, "/tmp/t/hooks");
    let provision = provisioner.plan("s-9");
    assert_eq!(provision.setup.zdotdir_path, "/tmp/t/zshrc/s-9");
    assert_eq!(provision.integration_path, "/tmp/t/hooks");
    assert_eq!(provision.template_path, "/tmp/t/hooks/.zshrc.template");
    assert_eq!(provision.zshrc_path, "/tmp/t/zshrc/s-9/.zshrc");
}

#[test]
fn shell_finds_its_directory_by_zdotdir() {
    assert_eq!(ZDOTDIR_VARIABLE, "ZDOTDIR");
}

#[test]
fn plan_names_directory_and_files() {
    let provision =
        Provisioner::under_home("/home/ada").plan("0b5e7a86-5c0f-4e0b-9d38-8d3a0c6f4c11");
    assert_eq!(
        provision.setup.zdotdir_path,
        "/home/ada/.vibecodings/zshrc/0b5e7a86-5c0f-4e0b-9d38-8d3a0c6f4c11"
    );
    assert_eq!(provision.integration_path, "/home/ada/vibe-terminal/shell-integration");
    assert_eq!(
        provision.template_path,
        "/home/ada/vibe-terminal/shell-integration/.zshrc.template"
    );
    assert_eq!(
        provision.zshrc_path,
        "/home/ada/.vibecodings/zshrc/0b5e7a86-5c0f-4e0b-9d38-8d3a0c6f4c11/.zshrc"
    );
    assert_eq!(provision.setup.nonce.len(), 32);
    assert!(provision.setup.nonce.chars().all(|c| c.is_ascii_alphanumeric()));
}

#[test]
fn plans_of_two_sessions_share_nothing() {
    let provisioner = Provisioner::under_home("/home/ada");
    let first = provisioner.plan("one");
    let second = provisioner.plan("two");
    assert_ne!(first.setup.zdotdir_path, second.setup.zdotdir_path);
    assert_ne!(first.zshrc_path, second.zshrc_path);
    assert_ne!(first.setup.nonce, second.setup.nonce);
    assert_eq!(first.template_path, second.template_path);
}

#[test]
fn render_fills_in_the_three_placeholders() {
    let template = "export VIBE_SESSION_ID=\"{{SESSION_ID}}\"\n\
                    export VIBE_NONCE=\"{{NONCE}}\"\n\
                    source \"{{VIBE_INTEGRATION_PATH}}/vibe.zsh\"\n";
    let content = render_zshrc(template, "s-1", "n0nce", "/opt/vibe");
    assert_eq!(
        String::from_utf8(content).unwrap(),
        "export VIBE_SESSION_ID=\"s-1\"\nexport VIBE_NONCE=\"n0nce\"\nsource \"/opt/vibe/vibe.zsh\"\n"
    );
}

#[test]
fn render_fills_in_every_occurrence() {
    let content = render_zshrc("{{NONCE}}{{NONCE}} {{SESSION_ID}} {{NONCE}}", "id", "N", "p");
    assert_eq!(content, b"NN id N".to_vec());
}

#[test]
fn render_leaves_other_text_alone() {
    let template = "# héllo {{ NONCE }} {SESSION_ID} {{nonce}} {{VIBE_INTEGRATION_PATH}\n";
    assert_eq!(render_zshrc(template, "id", "N", "p"), template.as_bytes().to_vec());
    assert_eq!(render_zshrc("", "id", "N", "p"), Vec::<u8>::new());
}

#[test]
fn render_substitutes_in_order() {
    let content = render_zshrc("{{SESSION_ID}}|{{NONCE}}", "{{NONCE}}", "{{VIBE_INTEGRATION_PATH}}", "p");
    assert_eq!(content, b"p|p".to_vec());
    let content = render_zshrc("{{VIBE_INTEGRATION_PATH}}", "id", "N", "{{SESSION_ID}}");
    assert_eq!(content, b"{{SESSION_ID}}".to_vec());
}

#[test]
fn planned_nonce_opens_the_parser() {
    let provision = Provisioner::under_home("/home/ada").plan("s");
    let nonce = provision.setup.nonce.clone();
    let mut parser = OscParser::new(nonce.clone());
    let stream = format!("\x1b]7711;CMD_START;{};make\x07", nonce);
    assert_eq!(parser.feed(stream.as_bytes()), vec![OscEvent::CommandStart("make".to_string())]);
}

#[test]
fn text_from_bytes_takes_each_byte_as_a_character() {
    assert_eq!(text_from_bytes(b""), "");
    assert_eq!(text_from_bytes(b"aZ09"), "aZ09");
    assert_eq!(text_from_bytes(b"a\x00b"), "a\u{0}b");
    assert_eq!(text_from_bytes(b"\xe9"), "\u{e9}");
    assert_eq!(text_from_bytes(b"\xff\x80"), "\u{ff}\u{80}");
}
