use slipstream::blocklist::{Blocklist, BlocklistManager, FileRead, RemoteReply, UpdaterStep, DEFAULT_REFRESH_NS};
use slipstream::pubkey::Pubkey;

const WSOL: &str = "So11111111111111111111111111111111111111112";
const TWO: &str = "11111111111111111111111111111112";

fn key(text: &str) -> Pubkey {
    Pubkey::from_text(text).unwrap()
}

fn response(status: u16, status_text: &str, body: Result<&str, &str>) -> RemoteReply {
    RemoteReply::Response {
        status,
        status_text: status_text.to_string(),
        body: body.map(|b| b.to_string()).map_err(|e| e.to_string()),
    }
}

fn remote() -> BlocklistManager {
    BlocklistManager::with_config("list.txt".to_string(), Some("http://list".to_string()), 5)
}

#[test]
fn parse_blocklist_skips_invalid_and_comments() {
    let manager = BlocklistManager::new();
    let content = r#"
            # comment
            11111111111111111111111111111112
            invalid_key
            So11111111111111111111111111111111111111112
        "#;

    let keys = manager.parse_blocklist(content);
    assert_eq!(keys.len(), 2);
    assert!(keys.contains(&key(TWO)));
    assert!(keys.contains(&key(WSOL)));
}

#[test]
fn parse_empty_blocklist() {
    let manager = BlocklistManager::new();
    let keys = manager.parse_blocklist("");
    assert!(keys.is_empty());
}

#[test]
fn from_env_defaults() {
    let manager = BlocklistManager::from_env(None, None, None);
    assert_eq!(manager.local_path(), "./blocklist.txt");
    assert!(manager.remote_url().is_none());
    assert_eq!(manager.refresh_ns(), DEFAULT_REFRESH_NS);
    assert_eq!(DEFAULT_REFRESH_NS, 300_000_000_000);
}

#[test]
fn from_env_takes_settings_over() {
    let manager = BlocklistManager::from_env(
        Some("/tmp/list".to_string()),
        Some("https://x.y/z".to_string()),
        Some("17".to_string()),
    );
    assert_eq!(manager.local_path(), "/tmp/list");
    assert_eq!(manager.remote_url().as_deref(), Some("https://x.y/z"));
    assert_eq!(manager.refresh_ns(), 17_000_000_000);
    let odd = BlocklistManager::from_env(None, None, Some(" 17".to_string()));
    assert_eq!(odd.refresh_ns(), 300_000_000_000);
    let longest = BlocklistManager::from_env(None, None, Some(u64::MAX.to_string()));
    assert_eq!(longest.refresh_ns(), u64::MAX as u128 * 1_000_000_000);
    let short = BlocklistManager::with_config("f".to_string(), None, 1_500_000);
    assert_eq!(short.refresh_ns(), 1_500_000);
    let default = BlocklistManager::default();
    assert_eq!(default.local_path(), "./blocklist.txt");
    assert!(default.get_handle().is_empty());
}

#[test]
fn lines_are_trimmed_and_duplicates_count_once() {
    let manager = BlocklistManager::new();
    let content = format!("\u{a0}{}\t\r\n\n#{}\n  {}\n{}", WSOL, TWO, WSOL, "#");
    let keys = manager.parse_blocklist(&content);
    assert_eq!(keys.len(), 1);
    assert!(keys.contains(&key(WSOL)));
    assert!(!keys.contains(&key(TWO)));
}

#[test]
fn key_with_trailing_comment_is_no_key() {
    let manager = BlocklistManager::new();
    assert!(manager.parse_blocklist(&format!("{} # bad", WSOL)).is_empty());
}

#[test]
fn blocklist_is_a_set() {
    let mut list = Blocklist::new();
    assert!(list.is_empty());
    list.insert(key(WSOL));
    list.insert(key(TWO));
    list.insert(key(WSOL));
    list.insert(key(TWO));
    assert_eq!(list.len(), 2);
    assert_eq!(list.file_content(), format!("{}\n{}\n", WSOL, TWO));
}

#[test]
fn written_file_reads_back() {
    let manager = BlocklistManager::new();
    let list = manager.parse_blocklist(&format!("{}\nx\n{}", TWO, WSOL));
    let again = manager.parse_blocklist(&list.file_content());
    assert_eq!(again.len(), 2);
    assert!(again.contains(&key(TWO)) && again.contains(&key(WSOL)));
}

#[test]
fn appended_key_is_listed() {
    let manager = BlocklistManager::new();
    let content = format!("# mine\n{}\n", TWO);
    let longer = format!("{}{}\n", content, WSOL);
    assert_eq!(manager.parse_blocklist(&content).len(), 1);
    let list = manager.parse_blocklist(&longer);
    assert_eq!(list.len(), 2);
    assert!(list.contains(&key(WSOL)));
}

#[test]
fn load_local_replaces_unless_nothing_is_listed() {
    let mut manager = BlocklistManager::new();
    assert_eq!(manager.load_local(FileRead::NotFound), 0);
    assert_eq!(manager.load_local(FileRead::Content(TWO.to_string())), 1);
    assert!(manager.get_handle().contains(&key(TWO)));
    assert_eq!(manager.load_local(FileRead::Content("# none\n".to_string())), 0);
    assert_eq!(manager.load_local(FileRead::Failed), 0);
    assert!(manager.get_handle().contains(&key(TWO)));
    assert_eq!(manager.reload_local(FileRead::Content(WSOL.to_string())), 1);
    assert!(!manager.get_handle().contains(&key(TWO)));
    assert!(manager.get_handle().contains(&key(WSOL)));
}

#[test]
fn fetch_remote_without_url_fails() {
    let mut manager = BlocklistManager::new();
    let r = manager.fetch_remote(response(200, "200 OK", Ok(WSOL)));
    assert_eq!(r.unwrap_err(), "no remote url configured (local-only mode)");
    assert!(manager.get_handle().is_empty());
}

#[test]
fn fetch_remote_reports_each_fault() {
    let mut manager = remote();
    let r = manager.fetch_remote(RemoteReply::RequestFailed("dns".to_string()));
    assert_eq!(r.unwrap_err(), "http request failed: dns");
    let r = manager.fetch_remote(response(404, "404 Not Found", Ok(WSOL)));
    assert_eq!(r.unwrap_err(), "http error: 404 Not Found");
    let r = manager.fetch_remote(response(199, "199 x", Ok(WSOL)));
    assert_eq!(r.unwrap_err(), "http error: 199 x");
    let r = manager.fetch_remote(response(300, "300 x", Ok(WSOL)));
    assert_eq!(r.unwrap_err(), "http error: 300 x");
    let r = manager.fetch_remote(response(200, "200 OK", Err("cut off")));
    assert_eq!(r.unwrap_err(), "failed to read response body: cut off");
    let r = manager.fetch_remote(response(200, "200 OK", Ok("# nobody")));
    assert_eq!(r.unwrap_err(), "remote blocklist is empty. ignoring update");
    assert!(manager.get_handle().is_empty());
}

#[test]
fn fetch_remote_takes_the_list_over() {
    let mut manager = remote();
    manager.load_local(FileRead::Content(TWO.to_string()));
    let update = manager.fetch_remote(response(299, "299", Ok(&format!(" {} \n?", WSOL)))).unwrap();
    assert_eq!(update.count, 1);
    assert_eq!(update.file_content, format!("{}\n", WSOL));
    assert!(manager.get_handle().contains(&key(WSOL)));
    assert!(!manager.get_handle().contains(&key(TWO)));
    let mut restarted = BlocklistManager::new();
    assert_eq!(restarted.load_local(FileRead::Content(update.file_content)), 1);
    assert!(restarted.get_handle().contains(&key(WSOL)));
}

#[test]
fn shield_stays_up() {
    let mut manager = remote();
    manager.load_local(FileRead::Content(TWO.to_string()));
    let _ = manager.fetch_remote(response(200, "200 OK", Ok("")));
    manager.reload_local(FileRead::Content("".to_string()));
    assert_eq!(manager.get_handle().len(), 1);
}

#[test]
fn updater_without_url_reloads() {
    let manager = BlocklistManager::new();
    let s = manager.next_step(UpdaterStep::Start, false);
    assert_eq!(s, UpdaterStep::Sleep);
    let s = manager.next_step(s, false);
    assert_eq!(s, UpdaterStep::Reload);
    assert_eq!(manager.next_step(s, false), UpdaterStep::Sleep);
}

#[test]
fn updater_with_url_fetches_and_falls_back() {
    let manager = remote();
    let s = manager.next_step(UpdaterStep::Start, false);
    assert_eq!(s, UpdaterStep::FirstFetch);
    assert_eq!(manager.next_step(s, false), UpdaterStep::Sleep);
    assert_eq!(manager.next_step(s, true), UpdaterStep::Sleep);
    let s = manager.next_step(UpdaterStep::Sleep, false);
    assert_eq!(s, UpdaterStep::Fetch);
    assert_eq!(manager.next_step(s, true), UpdaterStep::Sleep);
    assert_eq!(manager.next_step(s, false), UpdaterStep::Reload);
}
