use sar::cipher::DecryptError;
use sar::record::{Item, Origin, Record};
use sar::editor::EditorError;
use sar::select::{
    action_for, decide, display_content, exit_mode, resolve, Action, ContentError, ExitMode,
    ResolveError, SelectError, Selection,
};

fn entry(path: &str, line_number: usize, text: &str, origin: Origin) -> Item {
    Item::Line(Record { source_path: path.to_string(), line_number, text: text.to_string(), origin })
}

fn mirror_of_three() -> Vec<Item> {
    vec![
        entry("/n/a.txt", 0, "A", Origin::Plain),
        Item::opaque("/n/b.pdf"),
        entry("/n/c.txt", 5, "C", Origin::Encrypted("pw".to_string())),
    ]
}

#[test]
fn resolve_returns_the_entry_at_the_position() {
    assert_eq!(resolve(mirror_of_three(), 0), Ok(entry("/n/a.txt", 0, "A", Origin::Plain)));
    assert_eq!(resolve(mirror_of_three(), 1), Ok(Item::opaque("/n/b.pdf")));
    assert_eq!(
        resolve(mirror_of_three(), 2),
        Ok(entry("/n/c.txt", 5, "C", Origin::Encrypted("pw".to_string())))
    );
}

#[test]
fn resolve_refuses_a_position_past_the_mirror() {
    assert_eq!(
        resolve(mirror_of_three(), 3),
        Err(ResolveError::IndexOutOfRange { index: 3, available: 3 })
    );
    assert_eq!(
        resolve(mirror_of_three(), usize::MAX),
        Err(ResolveError::IndexOutOfRange { index: usize::MAX, available: 3 })
    );
    assert_eq!(resolve(Vec::new(), 0), Err(ResolveError::IndexOutOfRange { index: 0, available: 0 }));
}

#[test]
fn accept_keys_name_the_modes() {
    assert_eq!(exit_mode(Some("ctrl-n")), Some(ExitMode::CreateNew));
    assert_eq!(exit_mode(Some("ctrl-s")), Some(ExitMode::Show));
    assert_eq!(exit_mode(Some("ctrl-o")), Some(ExitMode::Open));
    assert_eq!(exit_mode(Some("")), Some(ExitMode::Cat));
    assert_eq!(exit_mode(None), Some(ExitMode::Cat));
}

#[test]
fn other_keys_name_no_mode() {
    assert_eq!(exit_mode(Some("ctrl-x")), None);
    assert_eq!(exit_mode(Some("enter")), None);
    assert_eq!(exit_mode(Some("ctrl-n ")), None);
    assert_eq!(exit_mode(Some("CTRL-N")), None);
    assert_eq!(exit_mode(Some(" ")), None);
}

#[test]
fn actions_on_a_line() {
    let item = entry("/n/c.txt", 5, "C", Origin::Encrypted("pw".to_string()));
    assert_eq!(action_for(&item, ExitMode::CreateNew), Action::CreateNew);
    assert_eq!(action_for(&item, ExitMode::Show), Action::Reveal { path: "/n/c.txt".to_string() });
    assert_eq!(
        action_for(&item, ExitMode::Open),
        Action::Edit { path: "/n/c.txt".to_string(), line_number: 5 }
    );
    assert_eq!(
        action_for(&item, ExitMode::Cat),
        Action::PrintContent { path: "/n/c.txt".to_string(), origin: Origin::Encrypted("pw".to_string()) }
    );
    assert_eq!(
        action_for(&entry("/n/a.txt", 0, "A", Origin::Plain), ExitMode::Cat),
        Action::PrintContent { path: "/n/a.txt".to_string(), origin: Origin::Plain }
    );
}

#[test]
fn actions_on_a_file_that_is_not_text() {
    let item = Item::opaque("/n/b.pdf");
    assert_eq!(action_for(&item, ExitMode::CreateNew), Action::CreateNew);
    assert_eq!(action_for(&item, ExitMode::Show), Action::Reveal { path: "/n/b.pdf".to_string() });
    assert_eq!(action_for(&item, ExitMode::Open), Action::PrintPath { path: "/n/b.pdf".to_string() });
    assert_eq!(action_for(&item, ExitMode::Cat), Action::Launch { path: "/n/b.pdf".to_string() });
}

fn selection(accept_key: Option<&str>, index: Option<usize>) -> Selection {
    Selection { accept_key: accept_key.map(|key| key.to_string()), index }
}

#[test]
fn selection_amounts_to_the_action_on_the_entry() {
    assert_eq!(
        decide(&selection(Some("ctrl-o"), Some(2)), mirror_of_three()),
        Ok(Some(Action::Edit { path: "/n/c.txt".to_string(), line_number: 5 }))
    );
    assert_eq!(
        decide(&selection(None, Some(0)), mirror_of_three()),
        Ok(Some(Action::PrintContent { path: "/n/a.txt".to_string(), origin: Origin::Plain }))
    );
    assert_eq!(
        decide(&selection(Some(""), Some(1)), mirror_of_three()),
        Ok(Some(Action::Launch { path: "/n/b.pdf".to_string() }))
    );
    assert_eq!(
        decide(&selection(Some("ctrl-s"), Some(1)), mirror_of_three()),
        Ok(Some(Action::Reveal { path: "/n/b.pdf".to_string() }))
    );
    assert_eq!(
        decide(&selection(Some("ctrl-n"), Some(1)), mirror_of_three()),
        Ok(Some(Action::CreateNew))
    );
}

#[test]
fn selection_of_no_line_amounts_to_nothing() {
    assert_eq!(decide(&selection(None, None), mirror_of_three()), Ok(None));
    assert_eq!(decide(&selection(Some("ctrl-o"), None), Vec::new()), Ok(None));
}

#[test]
fn selection_that_cannot_be_acted_on() {
    assert_eq!(decide(&selection(Some("ctrl-x"), Some(0)), mirror_of_three()), Err(SelectError::UnknownKey));
    assert_eq!(decide(&selection(Some("ctrl-x"), None), mirror_of_three()), Err(SelectError::UnknownKey));
    assert_eq!(decide(&selection(None, Some(3)), mirror_of_three()), Err(SelectError::IndexOutOfRange));
    assert_eq!(decide(&selection(Some("ctrl-x"), Some(3)), mirror_of_three()), Err(SelectError::UnknownKey));
}

#[test]
fn plain_content_is_decoded() {
    assert_eq!(display_content(&Origin::Plain, b"one\ntwo\n"), Ok("one\ntwo\n".to_string()));
    assert_eq!(display_content(&Origin::Plain, b""), Ok(String::new()));
    assert_eq!(display_content(&Origin::Plain, &[b'a', 0xff]), Err(ContentError::NotText));
}

#[test]
fn encrypted_content_is_decrypted_and_decoded() {
    let mut file = b"VimCrypt~01!".to_vec();
    file.extend([160, 37, 77, 123, 115, 152, 102, 164, 147, 236, 241, 246]);
    let origin = Origin::Encrypted("secret".to_string());
    assert_eq!(display_content(&origin, &file), Ok("hello\nworld\n".to_string()));
}

#[test]
fn encrypted_content_that_cannot_be_shown() {
    let origin = Origin::Encrypted("secret".to_string());
    assert_eq!(
        display_content(&origin, b"hello"),
        Err(ContentError::Decrypt(DecryptError::UnrecognizedFormat))
    );
    assert_eq!(
        display_content(&origin, b"VimCrypt~03!abcd"),
        Err(ContentError::Decrypt(DecryptError::UnsupportedMethod))
    );
    // One byte that decrypts to 0xff under this password is no text.
    let mut file = b"VimCrypt~01!".to_vec();
    file.push(0xff ^ 0xab);
    assert_eq!(display_content(&Origin::Encrypted(String::new()), &file), Err(ContentError::NotText));
}

#[test]
fn errors_say_what_went_wrong() {
    assert_eq!(DecryptError::UnrecognizedFormat.message(), "Unknown VimCrypt header.");
    assert_eq!(DecryptError::UnsupportedMethod.message(), "Unsupported VimCrypt method.");
    assert_eq!(
        ResolveError::IndexOutOfRange { index: 12, available: 7 }.message(),
        "Selected line 12 of 7 that were handed out."
    );
    assert_eq!(
        ContentError::Decrypt(DecryptError::UnsupportedMethod).message(),
        "Unsupported VimCrypt method."
    );
    assert_eq!(ContentError::NotText.message(), "The content is not valid UTF-8.");
    assert_eq!(
        SelectError::UnknownKey.message(),
        "The selection was accepted with an unexpected key."
    );
    assert_eq!(SelectError::IndexOutOfRange.message(), "The selected line was never handed out.");
    assert_eq!(
        EditorError::NotUnicode.message(),
        "The editor named by the environment is not valid Unicode."
    );
}
