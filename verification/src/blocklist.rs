//! Shield: the validators that are never targeted, where the list of them comes from, and
//! when it is refreshed.

use crate::pubkey::{base58_digit, is_pubkey_text, law_every_key_has_a_text, law_text_reads_back, pubkey_of, pubkey_text, Pubkey};
use crate::text::{chars_of, is_white_space, joined, law_padding_is_trimmed, lines, opt_text, read_setting, setting, trim, trimmed};
use vstd::prelude::*;

verus! {

/// The bytes of each key of `keys`.
pub open spec fn key_bytes(keys: Seq<Pubkey>) -> Seq<Seq<u8>> {
    keys.map_values(|key: Pubkey| key@)
}

/// A set of blocked validators.
#[derive(Debug)]
pub struct Blocklist {
    keys: Vec<Pubkey>,
}

impl View for Blocklist {
    type V = Set<Seq<u8>>;

    closed spec fn view(&self) -> Set<Seq<u8>> {
        key_bytes(self.keys@).to_set()
    }
}

impl Blocklist {
    /// The blocked keys, in the order in which they were added.
    pub closed spec fn order(&self) -> Seq<Pubkey> {
        self.keys@
    }

    /// No key is held twice.
    #[verifier::type_invariant]
    spec fn distinct(self) -> bool {
        key_bytes(self.keys@).no_duplicates()
    }

    /// A set that blocks nobody.
    pub fn new() -> (r: Blocklist)
        ensures
            r@ == Set::<Seq<u8>>::empty(),
            r.order() == Seq::<Pubkey>::empty(),
    {
        let r = Blocklist { keys: Vec::new() };
        assert(r@ =~= Set::<Seq<u8>>::empty());
        r
    }

    /// How many validators are blocked.
    pub fn len(&self) -> (n: usize)
        ensures
            n == self@.len(),
            self@.finite(),
            key_bytes(self.order()).no_duplicates(),
            key_bytes(self.order()).to_set() == self@,
    {
        proof {
            use_type_invariant(&*self);
            key_bytes(self.keys@).unique_seq_to_set();
        }
        self.keys.len()
    }

    /// Whether nobody is blocked.
    pub fn is_empty(&self) -> (r: bool)
        ensures
            r == (self@ == Set::<Seq<u8>>::empty()),
    {
        let n: usize = self.len();
        proof {
            if n == 0 {
                assert(self@ =~= Set::<Seq<u8>>::empty());
            }
        }
        n == 0
    }

    /// Whether `key` is blocked.
    pub fn contains(&self, key: &Pubkey) -> (r: bool)
        ensures
            r == self@.contains(key@),
    {
        let mut i: usize = 0;
        while i < self.keys.len()
            invariant
                i <= self.keys.len(),
                forall|j: int| 0 <= j < i ==> #[trigger] key_bytes(self.keys@)[j] != key@,
            decreases self.keys.len() - i,
        {
            if self.keys[i].same(key) {
                assert(key_bytes(self.keys@)[i as int] == key@);
                return true;
            }
            i += 1;
        }
        false
    }

    /// Blocks `key`.
    pub fn insert(&mut self, key: Pubkey)
        ensures
            final(self)@ == old(self)@.insert(key@),
            final(self).order() == if old(self)@.contains(key@) {
                old(self).order()
            } else {
                old(self).order().push(key)
            },
    {
        proof {
            use_type_invariant(&*self);
        }
        if !self.contains(&key) {
            let ghost before = self.keys@;
            let mut keys: Vec<Pubkey> = Vec::new();
            std::mem::swap(&mut keys, &mut self.keys);
            keys.push(key);
            proof {
                assert(key_bytes(keys@) == key_bytes(before).push(key@));
                assert forall|j: int|
                    0 <= j < before.len() implies #[trigger] key_bytes(before)[j] != key@ by {
                    assert(key_bytes(before).contains(key_bytes(before)[j]));
                }
                let all = key_bytes(keys@);
                assert forall|k: Seq<u8>|
                    all.to_set().contains(k) <==> key_bytes(before).to_set().insert(key@).contains(
                        k,
                    ) by {
                    if key_bytes(before).contains(k) {
                        let j = key_bytes(before).index_of(k);
                        assert(all[j] == k);
                    }
                    assert(all[before.len() as int] == key@);
                }
            }
            self.keys = keys;
            assert(self@ =~= old(self)@.insert(key@));
        } else {
            assert(self@ =~= old(self)@.insert(key@));
        }
    }
}

/// The keys that the given lines list: a line lists a key where, without the white space
/// around it, it is the text of that key.
pub open spec fn keys_in(all: Seq<Seq<char>>) -> Set<Seq<u8>> {
    Set::new(|key: Seq<u8>| exists|i: int| 0 <= i < all.len() && lists(#[trigger] all[i], key))
}

/// Whether `line` lists `key`.
pub open spec fn lists(line: Seq<char>, key: Seq<u8>) -> bool {
    pubkey_of(trim(line)) == Some(key)
}

/// The keys that a blocklist file lists.
pub open spec fn listed_keys(content: Seq<char>) -> Set<Seq<u8>> {
    keys_in(lines(content))
}

proof fn lemma_keys_in_push(all: Seq<Seq<char>>, line: Seq<char>)
    ensures
        keys_in(all.push(line)) == match pubkey_of(trim(line)) {
            Some(key) => keys_in(all).insert(key),
            None => keys_in(all),
        },
{
    let more = all.push(line);
    assert forall|key: Seq<u8>|
        #[trigger] keys_in(more).contains(key) <==> keys_in(all).contains(key) || lists(
            line,
            key,
        ) by {
        if keys_in(all).contains(key) {
            let i = choose|i: int| 0 <= i < all.len() && lists(#[trigger] all[i], key);
            assert(lists(more[i], key));
        }
        if lists(line, key) {
            assert(lists(more[all.len() as int], key));
        }
        if keys_in(more).contains(key) {
            let i = choose|i: int| 0 <= i < more.len() && lists(#[trigger] more[i], key);
            if i < all.len() {
                assert(lists(all[i], key));
            }
        }
    }
    match pubkey_of(trim(line)) {
        Some(key) => {
            assert(keys_in(more) =~= keys_in(all).insert(key));
        },
        None => {
            assert(keys_in(more) =~= keys_in(all));
        },
    }
}

proof fn lemma_lines_nonempty(s: Seq<char>)
    ensures
        lines(s).len() > 0,
    decreases s.len(),
{
    if s.len() > 0 {
        lemma_lines_nonempty(s.drop_last());
    }
}

/// A line that is blank, or that begins with `#` but for white space, lists no key.
pub proof fn law_comments_list_nothing(line: Seq<char>, key: Seq<u8>)
    requires
        trim(line).len() == 0 || trim(line)[0] == '#',
    ensures
        !lists(line, key),
{
    if lists(line, key) {
        let t = trim(line);
        assert(is_pubkey_text(t, key));
        if t.len() == 0 {
            crate::pubkey::lemma_empty_is_no_key(key);
        } else {
            assert(base58_digit(t[0]) >= 0);
        }
    }
}

/// Adds the key that `line` lists, if it lists one.
fn add_line(list: &mut Blocklist, line: &Vec<char>)
    ensures
        final(list)@ == match pubkey_of(trim(line@)) {
            Some(key) => old(list)@.insert(key),
            None => old(list)@,
        },
{
    let text: String = trimmed(line);
    if text.as_str().is_empty() || text.as_str().get_char(0) == '#' {
        proof {
            if pubkey_of(trim(line@)) is Some {
                law_comments_list_nothing(line@, pubkey_of(trim(line@))->0);
            }
        }
        return ;
    }
    match Pubkey::from_text(text.as_str()) {
        Some(key) => {
            list.insert(key);
        },
        None => {},
    }
}

/// The keys that the blocklist file `content` lists.
fn blocklist_from(content: &str) -> (list: Blocklist)
    ensures
        list@ == listed_keys(content@),
{
    let mut list: Blocklist = Blocklist::new();
    let mut line: Vec<char> = Vec::new();
    let chars: Vec<char> = chars_of(content);
    let mut i: usize = 0;
    proof {
        assert(lines(chars@.take(0)) == seq![Seq::<char>::empty()]);
        assert(list@ =~= keys_in(lines(chars@.take(0)).drop_last()));
        assert(line@ =~= lines(chars@.take(0)).last());
    }
    while i < chars.len()
        invariant
            i <= chars.len(),
            list@ == keys_in(lines(chars@.take(i as int)).drop_last()),
            line@ == lines(chars@.take(i as int)).last(),
        decreases chars.len() - i,
    {
        let ghost before = lines(chars@.take(i as int));
        let ghost after = lines(chars@.take(i + 1));
        proof {
            lemma_lines_nonempty(chars@.take(i as int));
            assert(chars@.take(i + 1).drop_last() == chars@.take(i as int));
            assert(before.drop_last().push(before.last()) == before);
            lemma_keys_in_push(before.drop_last(), before.last());
        }
        let c: char = chars[i];
        if c == '\n' {
            add_line(&mut list, &line);
            line = Vec::new();
            assert(after.drop_last() == before);
            assert(line@ =~= after.last());
        } else {
            line.push(c);
            assert(after.drop_last() == before.drop_last());
        }
        i += 1;
    }
    proof {
        assert(chars@.take(chars@.len() as int) == content@);
        lemma_lines_nonempty(content@);
        let all = lines(content@);
        assert(all.drop_last().push(all.last()) == all);
        lemma_keys_in_push(all.drop_last(), all.last());
    }
    add_line(&mut list, &line);
    list
}

/// The content of a blocklist file that lists `keys`: the text of each, on a line of its
/// own.
pub open spec fn file_text(keys: Seq<Pubkey>) -> Seq<char>
    decreases keys.len(),
{
    if keys.len() == 0 {
        Seq::empty()
    } else {
        file_text(keys.drop_last()) + pubkey_text(keys.last()@).push('\n')
    }
}

/// The text of each key of `keys`.
spec fn key_texts(keys: Seq<Pubkey>) -> Seq<Seq<char>> {
    keys.map_values(|key: Pubkey| pubkey_text(key@))
}

proof fn lemma_lines_append(s: Seq<char>, t: Seq<char>)
    requires
        forall|i: int| 0 <= i < t.len() ==> t[i] != '\n',
    ensures
        lines(s + t) == lines(s).drop_last().push(lines(s).last() + t),
    decreases t.len(),
{
    lemma_lines_nonempty(s);
    if t.len() == 0 {
        assert(s + t == s);
        assert(lines(s).last() + t == lines(s).last());
        assert(lines(s).drop_last().push(lines(s).last()) == lines(s));
    } else {
        let u = t.drop_last();
        lemma_lines_append(s, u);
        assert((s + t).drop_last() == s + u);
        assert((s + t).last() == t.last());
        assert(t.last() == t[t.len() - 1]);
        let before = lines(s + u);
        assert(before.drop_last() == lines(s).drop_last());
        assert((lines(s).last() + u).push(t.last()) == lines(s).last() + t);
    }
}

proof fn lemma_key_text_is_plain(key: Pubkey)
    ensures
        is_pubkey_text(pubkey_text(key@), key@),
        forall|i: int| 0 <= i < pubkey_text(key@).len() ==> pubkey_text(key@)[i] != '\n',
        trim(pubkey_text(key@)) == pubkey_text(key@),
        pubkey_of(trim(pubkey_text(key@))) == Some(key@),
{
    law_every_key_has_a_text(key@);
    let t = pubkey_text(key@);
    law_text_reads_back(t, key@);
    assert forall|i: int| 0 <= i < t.len() implies t[i] != '\n' by {
        assert(base58_digit(t[i]) >= 0);
    }
    if t.len() > 0 {
        assert(base58_digit(t[0]) >= 0);
        assert(base58_digit(t[t.len() - 1]) >= 0);
    }
}

proof fn lemma_file_text_lines(keys: Seq<Pubkey>)
    ensures
        lines(file_text(keys)) == key_texts(keys).push(Seq::empty()),
        keys_in(key_texts(keys)) == key_bytes(keys).to_set(),
    decreases keys.len(),
{
    if keys.len() == 0 {
        assert(key_texts(keys).push(Seq::empty()) =~= seq![Seq::<char>::empty()]);
        assert(keys_in(key_texts(keys)) =~= key_bytes(keys).to_set());
    } else {
        let fewer = keys.drop_last();
        let key = keys.last();
        let t = pubkey_text(key@);
        lemma_file_text_lines(fewer);
        lemma_key_text_is_plain(key);
        lemma_lines_append(file_text(fewer), t);
        let s = file_text(keys);
        assert(s.drop_last() == file_text(fewer) + t);
        assert(s.last() == '\n');
        assert(key_texts(fewer).push(Seq::empty()).drop_last() == key_texts(fewer));
        assert(Seq::<char>::empty() + t == t);
        assert(key_texts(keys) == key_texts(fewer).push(t));
        lemma_keys_in_push(key_texts(fewer), t);
        let all = key_bytes(keys);
        assert(all == key_bytes(fewer).push(key@));
        assert forall|k: Seq<u8>|
            #[trigger] all.to_set().contains(k) <==> key_bytes(fewer).to_set().insert(
                key@,
            ).contains(k) by {
            if key_bytes(fewer).contains(k) {
                let j = key_bytes(fewer).index_of(k);
                assert(all[j] == k);
            }
            assert(all[fewer.len() as int] == key@);
        }
        assert(all.to_set() =~= key_bytes(fewer).to_set().insert(key@));
    }
}

/// A blocklist file that was written for some keys lists those keys and no others.
pub proof fn law_file_reads_back(keys: Seq<Pubkey>)
    ensures
        listed_keys(file_text(keys)) == key_bytes(keys).to_set(),
{
    lemma_file_text_lines(keys);
    lemma_keys_in_push(key_texts(keys), Seq::empty());
    if pubkey_of(trim(Seq::empty())) is Some {
        law_comments_list_nothing(Seq::empty(), pubkey_of(trim(Seq::empty()))->0);
    }
}

/// A key that is put on a line of its own at the end of a blocklist file is listed from then on,
/// beside those that were.
pub proof fn law_appended_key_is_listed(content: Seq<char>, key: Pubkey)
    requires
        content.len() == 0 || content.last() == '\n',
    ensures
        listed_keys(content + pubkey_text(key@).push('\n')) == listed_keys(content).insert(key@),
{
    let t = pubkey_text(key@);
    let blank = Seq::<char>::empty();
    let before = lines(content).drop_last();
    lemma_key_text_is_plain(key);
    lemma_lines_append(content, t);
    lemma_lines_nonempty(content);
    assert(lines(content).last() == blank);
    assert(blank + t == t);
    let longer = content + t.push('\n');
    assert(longer.drop_last() == content + t);
    assert(lines(longer) == before.push(t).push(blank));
    assert(lines(content) == before.push(blank));
    lemma_keys_in_push(before, t);
    lemma_keys_in_push(before.push(t), blank);
    lemma_keys_in_push(before, blank);
    if pubkey_of(trim(blank)) is Some {
        law_comments_list_nothing(blank, pubkey_of(trim(blank))->0);
    }
}

impl Blocklist {
    /// The content of a blocklist file that lists the blocked keys.
    pub fn file_content(&self) -> (content: String)
        ensures
            content@ == file_text(self.order()),
            listed_keys(content@) == self@,
    {
        let mut content: String = String::new();
        let mut i: usize = 0;
        while i < self.keys.len()
            invariant
                i <= self.keys.len(),
                content@ == file_text(self.keys@.take(i as int)),
            decreases self.keys.len() - i,
        {
            assert(self.keys@.take(i + 1).drop_last() == self.keys@.take(i as int));
            let ghost before = content@;
            let text: String = self.keys[i].to_text();
            content.append(text.as_str());
            content.push('\n');
            assert(content@ == before + text@.push('\n'));
            i += 1;
        }
        proof {
            assert(self.keys@.take(self.keys@.len() as int) == self.keys@);
            law_file_reads_back(self.keys@);
        }
        content
    }
}

/// How long, in seconds, the blocklist is kept before it is refreshed, unless configured.
pub const DEFAULT_REFRESH_SECS: u64 = 300;

/// How many nanoseconds a second has.
pub const NS_PER_SEC: u128 = 1_000_000_000;

/// How long, in nanoseconds, the blocklist is kept before it is refreshed, unless configured.
pub const DEFAULT_REFRESH_NS: u128 = 300_000_000_000;

/// Keeps the blocklist, and knows where it comes from.
#[derive(Debug)]
pub struct BlocklistManager {
    blocklist: Blocklist,
    local_path: String,
    remote_url: Option<String>,
    refresh_ns: u128,
}

/// What a [`BlocklistManager`] holds.
#[verifier::ext_equal]
pub struct BlocklistManagerView {
    pub blocked: Set<Seq<u8>>,
    pub local_path: Seq<char>,
    pub remote_url: Option<Seq<char>>,
    /// How long the blocklist is kept before it is refreshed, in nanoseconds.
    pub refresh_ns: u128,
}

impl View for BlocklistManager {
    type V = BlocklistManagerView;

    closed spec fn view(&self) -> BlocklistManagerView {
        BlocklistManagerView {
            blocked: self.blocklist@,
            local_path: self.local_path@,
            remote_url: opt_text(self.remote_url),
            refresh_ns: self.refresh_ns,
        }
    }
}

/// What reading the local blocklist file gave.
pub enum FileRead {
    /// The content of the file.
    Content(String),
    /// There is no such file.
    NotFound,
    /// The file could not be read.
    Failed,
}

/// The keys that a read of the local blocklist file gave.
pub open spec fn file_keys(file: FileRead) -> Set<Seq<u8>> {
    match file {
        FileRead::Content(content) => listed_keys(content@),
        _ => Set::empty(),
    }
}

/// The manager `before` after it has taken over `keys`. No keys at all are not taken over.
pub open spec fn with_keys(
    before: BlocklistManagerView,
    keys: Set<Seq<u8>>,
) -> BlocklistManagerView {
    if keys == Set::<Seq<u8>>::empty() {
        before
    } else {
        BlocklistManagerView { blocked: keys, ..before }
    }
}

/// Validators that are blocked do not all become unblocked: whatever keys are taken over, a
/// blocklist that blocks somebody still blocks somebody.
pub proof fn law_shield_stays_up(before: BlocklistManagerView, keys: Set<Seq<u8>>)
    requires
        before.blocked != Set::<Seq<u8>>::empty(),
    ensures
        with_keys(before, keys).blocked != Set::<Seq<u8>>::empty(),
{
}

/// A blocklist that was written to the local file is what loading that file gives back.
pub proof fn law_persisted_blocklist_is_loaded(
    before: BlocklistManagerView,
    keys: Seq<Pubkey>,
    file: FileRead,
)
    requires
        keys.len() > 0,
        file matches FileRead::Content(content) && content@ == file_text(keys),
    ensures
        with_keys(before, file_keys(file)).blocked == key_bytes(keys).to_set(),
{
    law_file_reads_back(keys);
    assert(key_bytes(keys)[0] == keys[0]@);
    assert(key_bytes(keys).to_set().contains(keys[0]@));
}

/// What asking for the remote blocklist gave.
pub enum RemoteReply {
    /// No response came, for the reason given.
    RequestFailed(String),
    /// A response came: its status, the status in words, and its body or the reason why the
    /// body could not be read.
    Response { status: u16, status_text: String, body: Result<String, String> },
}

/// A remote blocklist that was taken over.
#[derive(Debug)]
pub struct RemoteUpdate {
    /// How many validators it blocks.
    pub count: usize,
    /// What the local blocklist file has to hold from now on.
    pub file_content: String,
}

impl RemoteUpdate {
    /// Whether the file holds the keys `keys`, the text of each once, on a line of its own.
    pub open spec fn is_file_of(&self, keys: Set<Seq<u8>>) -> bool {
        &&& exists|order: Seq<Pubkey>|
            {
                &&& #[trigger] key_bytes(order).no_duplicates()
                &&& key_bytes(order).to_set() == keys
                &&& self.file_content@ == file_text(order)
            }
        &&& listed_keys(self.file_content@) == keys
    }
}

/// Whether the HTTP status `status` reports success.
pub open spec fn is_success(status: u16) -> bool {
    200 <= status < 300
}

/// Why a reply gives no new blocklist, if it gives none.
pub open spec fn fetch_fault(remote_url: Option<Seq<char>>, reply: RemoteReply) -> Option<
    Seq<char>,
> {
    if remote_url is None {
        Some("no remote url configured (local-only mode)"@)
    } else {
        match reply {
            RemoteReply::RequestFailed(reason) => Some("http request failed: "@ + reason@),
            RemoteReply::Response { status, status_text, body } => if !is_success(status) {
                Some("http error: "@ + status_text@)
            } else {
                match body {
                    Err(reason) => Some("failed to read response body: "@ + reason@),
                    Ok(content) => if listed_keys(content@) == Set::<Seq<u8>>::empty() {
                        Some("remote blocklist is empty. ignoring update"@)
                    } else {
                        None
                    },
                }
            },
        }
    }
}

/// The body of a response.
pub open spec fn reply_body(reply: RemoteReply) -> Seq<char> {
    match reply {
        RemoteReply::Response { status: _, status_text: _, body: Ok(content) } => content@,
        _ => Seq::empty(),
    }
}

impl BlocklistManager {
    /// A manager with an empty blocklist, the file `./blocklist.txt` and no remote source.
    pub fn new() -> (r: BlocklistManager)
        ensures
            r@ == (BlocklistManagerView {
                blocked: Set::empty(),
                local_path: "./blocklist.txt"@,
                remote_url: None,
                refresh_ns: DEFAULT_REFRESH_NS,
            }),
    {
        BlocklistManager::with_config("./blocklist.txt".to_owned(), None, DEFAULT_REFRESH_NS)
    }

    /// A manager with an empty blocklist and the given sources, which keeps the blocklist for
    /// `refresh_ns` nanoseconds before it is refreshed.
    pub fn with_config(
        local_path: String,
        remote_url: Option<String>,
        refresh_ns: u128,
    ) -> (r: BlocklistManager)
        ensures
            r@ == (BlocklistManagerView {
                blocked: Set::empty(),
                local_path: local_path@,
                remote_url: opt_text(remote_url),
                refresh_ns,
            }),
    {
        BlocklistManager { blocklist: Blocklist::new(), local_path, remote_url, refresh_ns }
    }

    /// A manager configured by the values of the variables `SLIPSTREAM_BLOCKLIST_FILE`,
    /// `SLIPSTREAM_BLOCKLIST_URL` and `SLIPSTREAM_BLOCKLIST_REFRESH_SECS`, each where it is
    /// set.
    pub fn from_env(
        file: Option<String>,
        url: Option<String>,
        refresh: Option<String>,
    ) -> (r: BlocklistManager)
        ensures
            r@ == (BlocklistManagerView {
                blocked: Set::empty(),
                local_path: match file {
                    Some(path) => path@,
                    None => "./blocklist.txt"@,
                },
                remote_url: opt_text(url),
                refresh_ns: (setting(opt_text(refresh), u64::MAX, DEFAULT_REFRESH_SECS)
                    * NS_PER_SEC) as u128,
            }),
    {
        let local_path: String = match file {
            Some(path) => path,
            None => "./blocklist.txt".to_owned(),
        };
        let refresh_secs: u64 = read_setting(&refresh, u64::MAX, DEFAULT_REFRESH_SECS);
        BlocklistManager::with_config(local_path, url, refresh_secs as u128 * NS_PER_SEC)
    }

    /// The blocklist.
    pub fn get_handle(&self) -> (r: &Blocklist)
        ensures
            r@ == self@.blocked,
    {
        &self.blocklist
    }

    /// The path of the local blocklist file.
    pub fn local_path(&self) -> (r: &str)
        ensures
            r@ == self@.local_path,
    {
        self.local_path.as_str()
    }

    /// Where the remote blocklist is, if there is one.
    pub fn remote_url(&self) -> (r: &Option<String>)
        ensures
            opt_text(*r) == self@.remote_url,
    {
        &self.remote_url
    }

    /// How long, in nanoseconds, the blocklist is kept before it is refreshed.
    pub fn refresh_ns(&self) -> (r: u128)
        ensures
            r == self@.refresh_ns,
    {
        self.refresh_ns
    }

    /// The keys that the blocklist file `content` lists. Blank lines, comments and lines that
    /// are not the text of a key are skipped.
    pub fn parse_blocklist(&self, content: &str) -> (list: Blocklist)
        ensures
            list@ == listed_keys(content@),
    {
        blocklist_from(content)
    }

    /// Takes over the keys of the local file and says how many there are. A file that lists
    /// no key, or that could not be read, leaves the blocklist as it is.
    pub fn load_local(&mut self, file: FileRead) -> (count: usize)
        ensures
            file_keys(file).finite(),
            count == file_keys(file).len(),
            final(self)@ == with_keys(old(self)@, file_keys(file)),
    {
        match file {
            FileRead::Content(content) => {
                let keys: Blocklist = self.parse_blocklist(content.as_str());
                let count: usize = keys.len();
                if count > 0 {
                    self.blocklist = keys;
                } else {
                    assert(keys@ =~= Set::<Seq<u8>>::empty());
                }
                count
            },
            _ => 0,
        }
    }

    /// Takes over the keys of a remote blocklist and says how many there are, and what the
    /// local file has to hold from now on. Anything but a successful response that lists a
    /// key leaves the blocklist as it is.
    pub fn fetch_remote(&mut self, reply: RemoteReply) -> (r: Result<RemoteUpdate, String>)
        ensures
            match fetch_fault(old(self)@.remote_url, reply) {
                Some(fault) => {
                    &&& r matches Err(message)
                    &&& message@ == fault
                    &&& final(self)@ == old(self)@
                },
                None => {
                    &&& r matches Ok(update)
                    &&& listed_keys(reply_body(reply)).finite()
                    &&& update.count == listed_keys(reply_body(reply)).len()
                    &&& update.is_file_of(listed_keys(reply_body(reply)))
                    &&& final(self)@ == with_keys(old(self)@, listed_keys(reply_body(reply)))
                },
            },
    {
        if self.remote_url.is_none() {
            return Err("no remote url configured (local-only mode)".to_owned());
        }
        match reply {
            RemoteReply::RequestFailed(reason) => Err(
                joined("http request failed: ", reason.as_str()),
            ),
            RemoteReply::Response { status, status_text, body } => {
                if status < 200 || status >= 300 {
                    return Err(joined("http error: ", status_text.as_str()));
                }
                match body {
                    Err(reason) => Err(joined("failed to read response body: ", reason.as_str())),
                    Ok(content) => {
                        let keys: Blocklist = self.parse_blocklist(content.as_str());
                        let count: usize = keys.len();
                        if count == 0 {
                            assert(keys@ =~= Set::<Seq<u8>>::empty());
                            return Err("remote blocklist is empty. ignoring update".to_owned());
                        }
                        let file_content: String = keys.file_content();
                        self.blocklist = keys;
                        Ok(RemoteUpdate { count, file_content })
                    },
                }
            },
        }
    }

    /// Takes over the keys of the local file again.
    pub fn reload_local(&mut self, file: FileRead) -> (count: usize)
        ensures
            file_keys(file).finite(),
            count == file_keys(file).len(),
            final(self)@ == with_keys(old(self)@, file_keys(file)),
    {
        self.load_local(file)
    }
}

/// What the task that keeps the blocklist fresh does next.
#[derive(Debug, Clone, Copy, PartialEq, Eq, Structural)]
pub enum UpdaterStep {
    /// Nothing yet: the task has just started.
    Start,
    /// Fetch the remote blocklist for the first time.
    FirstFetch,
    /// Sleep for the refresh interval.
    Sleep,
    /// Fetch the remote blocklist.
    Fetch,
    /// Load the local file again.
    Reload,
}

/// The step after `step`, where `has_url` says whether there is a remote source and
/// `fetched` whether the fetch, if `step` was one, gave a new blocklist.
pub open spec fn step_after(has_url: bool, step: UpdaterStep, fetched: bool) -> UpdaterStep {
    match step {
        UpdaterStep::Start => if has_url {
            UpdaterStep::FirstFetch
        } else {
            UpdaterStep::Sleep
        },
        UpdaterStep::FirstFetch => UpdaterStep::Sleep,
        UpdaterStep::Sleep => if has_url {
            UpdaterStep::Fetch
        } else {
            UpdaterStep::Reload
        },
        UpdaterStep::Fetch => if fetched {
            UpdaterStep::Sleep
        } else {
            UpdaterStep::Reload
        },
        UpdaterStep::Reload => UpdaterStep::Sleep,
    }
}

/// Every sleep is followed by a refresh, either a fetch that gave a new blocklist or a reload
/// of the local file, before the next sleep; and a fetch never happens without a source.
pub proof fn law_every_sleep_is_followed_by_a_refresh(has_url: bool, fetched: bool, any: bool)
    ensures
        ({
            let first = step_after(has_url, UpdaterStep::Sleep, any);
            let second = step_after(has_url, first, fetched);
            let third = step_after(has_url, second, any);
            ||| first == UpdaterStep::Reload && !has_url && second == UpdaterStep::Sleep
            ||| first == UpdaterStep::Fetch && has_url && fetched && second == UpdaterStep::Sleep
            ||| first == UpdaterStep::Fetch && has_url && !fetched && second == UpdaterStep::Reload
                && third == UpdaterStep::Sleep
        }),
{
}

impl BlocklistManager {
    /// What to do after `step`, where `fetched` says whether a fetch gave a new blocklist.
    pub fn next_step(&self, step: UpdaterStep, fetched: bool) -> (r: UpdaterStep)
        ensures
            r == step_after(self@.remote_url is Some, step, fetched),
    {
        match step {
            UpdaterStep::Start => if self.remote_url.is_some() {
                UpdaterStep::FirstFetch
            } else {
                UpdaterStep::Sleep
            },
            UpdaterStep::FirstFetch => UpdaterStep::Sleep,
            UpdaterStep::Sleep => if self.remote_url.is_some() {
                UpdaterStep::Fetch
            } else {
                UpdaterStep::Reload
            },
            UpdaterStep::Fetch => if fetched {
                UpdaterStep::Sleep
            } else {
                UpdaterStep::Reload
            },
            UpdaterStep::Reload => UpdaterStep::Sleep,
        }
    }
}

impl Default for BlocklistManager {
    fn default() -> (r: BlocklistManager)
        ensures
            r@ == (BlocklistManagerView {
                blocked: Set::empty(),
                local_path: "./blocklist.txt"@,
                remote_url: None,
                refresh_ns: DEFAULT_REFRESH_NS,
            }),
    {
        BlocklistManager::new()
    }
}

proof fn lemma_lines_join(x: Seq<char>, y: Seq<char>)
    ensures
        lines(x.push('\n') + y) == lines(x) + lines(y),
    decreases y.len(),
{
    lemma_lines_nonempty(y);
    let s = x.push('\n') + y;
    if y.len() == 0 {
        assert(s == x.push('\n'));
        assert(s.drop_last() == x);
        assert(lines(s) == lines(x).push(Seq::empty()));
        assert(lines(x) + lines(y) == lines(x).push(Seq::empty()));
    } else {
        let z = y.drop_last();
        lemma_lines_join(x, z);
        lemma_lines_nonempty(z);
        assert(s.drop_last() == x.push('\n') + z);
        assert(s.last() == y.last());
        let before = lines(x.push('\n') + z);
        assert(before.last() == lines(z).last());
        if y.last() == '\n' {
            assert(lines(s) == lines(x) + lines(y));
        } else {
            assert(before.drop_last() == lines(x) + lines(z).drop_last());
            assert(lines(s) == lines(x) + lines(y));
        }
    }
}

/// The lines of a file count each on its own: two texts with a line feed between them list the
/// keys that the one or the other lists, and no others.
pub proof fn law_lines_count_on_their_own(x: Seq<char>, y: Seq<char>)
    ensures
        listed_keys(x.push('\n') + y) == listed_keys(x).union(listed_keys(y)),
{
    lemma_lines_join(x, y);
    let a = lines(x);
    let b = lines(y);
    assert forall|key: Seq<u8>| #[trigger]
        keys_in(a + b).contains(key) <==> keys_in(a).contains(key) || keys_in(b).contains(key) by {
        if keys_in(a + b).contains(key) {
            let i = choose|i: int| 0 <= i < (a + b).len() && lists(#[trigger] (a + b)[i], key);
            if i < a.len() {
                assert(lists(a[i], key));
            } else {
                assert(lists(b[i - a.len()], key));
            }
        }
        if keys_in(a).contains(key) {
            let i = choose|i: int| 0 <= i < a.len() && lists(#[trigger] a[i], key);
            assert(lists((a + b)[i], key));
        }
        if keys_in(b).contains(key) {
            let i = choose|i: int| 0 <= i < b.len() && lists(#[trigger] b[i], key);
            assert(lists((a + b)[i + a.len()], key));
        }
    }
    assert(keys_in(a + b) =~= keys_in(a).union(keys_in(b)));
}

proof fn lemma_lines_of_one(line: Seq<char>)
    requires
        forall|i: int| 0 <= i < line.len() ==> line[i] != '\n',
    ensures
        lines(line) == seq![line],
{
    lemma_lines_append(Seq::empty(), line);
    assert(Seq::<char>::empty() + line == line);
    assert(lines(Seq::<char>::empty()).drop_last().push(line) == seq![line]);
}

/// A single line lists a key exactly where, without the white space around it, it is the base58
/// text of that key.
pub proof fn law_line_lists_the_key_it_writes(line: Seq<char>, key: Seq<u8>)
    requires
        forall|i: int| 0 <= i < line.len() ==> line[i] != '\n',
    ensures
        listed_keys(line).contains(key) <==> is_pubkey_text(trim(line), key),
{
    lemma_lines_of_one(line);
    if is_pubkey_text(trim(line), key) {
        law_text_reads_back(trim(line), key);
        assert(lists(seq![line][0], key));
    }
}

/// A key that stands on a line, with or without white space around it, is listed whatever stands
/// on the lines before and after it.
pub proof fn law_key_on_a_line_is_listed(
    before: Seq<char>,
    left: Seq<char>,
    key: Pubkey,
    right: Seq<char>,
    after: Seq<char>,
)
    requires
        forall|k: int|
            0 <= k < left.len() ==> is_white_space(#[trigger] left[k]) && left[k] != '\n',
        forall|k: int|
            0 <= k < right.len() ==> is_white_space(#[trigger] right[k]) && right[k] != '\n',
    ensures
        ({
            let line = left + pubkey_text(key@) + right;
            &&& listed_keys(line).contains(key@)
            &&& listed_keys(line.push('\n') + after).contains(key@)
            &&& listed_keys(before.push('\n') + line).contains(key@)
            &&& listed_keys(before.push('\n') + (line.push('\n') + after)).contains(key@)
        }),
{
    let t = pubkey_text(key@);
    let line = left + t + right;
    lemma_key_text_is_plain(key);
    if t.len() == 0 {
        assert(t == Seq::<char>::empty());
        crate::pubkey::lemma_empty_is_no_key(key@);
    }
    assert(base58_digit(t[0]) >= 0);
    assert(base58_digit(t[t.len() - 1]) >= 0);
    law_padding_is_trimmed(left, t, right);
    assert forall|i: int| 0 <= i < line.len() implies line[i] != '\n' by {
        if i < left.len() {
            assert(line[i] == left[i]);
        } else if i < left.len() + t.len() {
            assert(line[i] == t[i - left.len()]);
        } else {
            assert(line[i] == right[i - left.len() - t.len()]);
        }
    }
    law_line_lists_the_key_it_writes(line, key@);
    law_lines_count_on_their_own(line, after);
    law_lines_count_on_their_own(before, line);
    law_lines_count_on_their_own(before, line.push('\n') + after);
}

/// A file that lists keys replaces the blocked keys by exactly those; one that lists none, that is
/// not there or that could not be read leaves them; nothing else about the manager changes.
pub proof fn law_loading_replaces_or_keeps(before: BlocklistManagerView, content: String)
    ensures
        file_keys(FileRead::Content(content)) == listed_keys(content@),
        ({
            let after = with_keys(before, file_keys(FileRead::Content(content)));
            &&& forall|key: Seq<u8>| #[trigger]
                listed_keys(content@).contains(key) ==> after.blocked == listed_keys(content@)
            &&& (forall|key: Seq<u8>| !#[trigger] listed_keys(content@).contains(key))
                ==> after.blocked == before.blocked
            &&& after.local_path == before.local_path
            &&& after.remote_url == before.remote_url
            &&& after.refresh_ns == before.refresh_ns
        }),
        with_keys(before, file_keys(FileRead::NotFound)) == before,
        with_keys(before, file_keys(FileRead::Failed)) == before,
        forall|key: Seq<u8>|
            !(#[trigger] file_keys(FileRead::NotFound).contains(key)) && !file_keys(
                FileRead::Failed,
            ).contains(key),
{
    if forall|key: Seq<u8>| !#[trigger] listed_keys(content@).contains(key) {
        assert(listed_keys(content@) =~= Set::<Seq<u8>>::empty());
    }
}

/// Where a remote source is configured and answers with success, in a body that can be read and
/// that lists at least one key, whatever else it holds, the fetch succeeds, and exactly the keys
/// that the body lists are blocked from then on.
pub proof fn law_listing_response_is_taken_over(
    before: BlocklistManagerView,
    status: u16,
    status_text: String,
    content: String,
    key: Seq<u8>,
)
    requires
        before.remote_url is Some,
        200 <= status <= 299,
        listed_keys(content@).contains(key),
    ensures
        ({
            let reply = RemoteReply::Response { status, status_text, body: Ok(content) };
            let after = with_keys(before, listed_keys(reply_body(reply)));
            &&& fetch_fault(before.remote_url, reply) is None
            &&& reply_body(reply) == content@
            &&& after.blocked == listed_keys(content@)
            &&& after.blocked.contains(key)
            &&& after.local_path == before.local_path
            &&& after.remote_url == before.remote_url
            &&& after.refresh_ns == before.refresh_ns
        }),
{
}

/// Every other fetch fails, and says why: no source, no response, a status that is not one of
/// success, a body that could not be read, or a body that lists nobody.
pub proof fn law_other_fetches_fail(
    url: Seq<char>,
    reply: RemoteReply,
    reason: String,
    status: u16,
    status_text: String,
    body: Result<String, String>,
    content: String,
)
    ensures
        fetch_fault(None, reply) == Some("no remote url configured (local-only mode)"@),
        fetch_fault(Some(url), RemoteReply::RequestFailed(reason)) == Some(
            "http request failed: "@ + reason@,
        ),
        status < 200 || 299 < status ==> fetch_fault(
            Some(url),
            RemoteReply::Response { status, status_text, body },
        ) == Some("http error: "@ + status_text@),
        200 <= status <= 299 ==> fetch_fault(
            Some(url),
            RemoteReply::Response { status, status_text, body: Err(reason) },
        ) == Some("failed to read response body: "@ + reason@),
        200 <= status <= 299 && (forall|key: Seq<u8>|
            !#[trigger] listed_keys(content@).contains(key)) ==> fetch_fault(
            Some(url),
            RemoteReply::Response { status, status_text, body: Ok(content) },
        ) == Some("remote blocklist is empty. ignoring update"@),
{
    if forall|key: Seq<u8>| !#[trigger] listed_keys(content@).contains(key) {
        assert(listed_keys(content@) =~= Set::<Seq<u8>>::empty());
    }
}

/// The file of some keys and one more is their file with one more line, which is the text of that
/// key; a key counts by its bytes.
pub proof fn law_file_has_a_line_for_each_key(keys: Seq<Pubkey>, key: Pubkey)
    ensures
        file_text(Seq::empty()) == Seq::<char>::empty(),
        file_text(keys.push(key)) == file_text(keys) + pubkey_text(key@) + seq!['\n'],
        key_bytes(keys).len() == keys.len(),
        forall|i: int| 0 <= i < keys.len() ==> #[trigger] key_bytes(keys)[i] == keys[i].bytes@,
{
    assert(keys.push(key).drop_last() == keys);
    assert(file_text(keys) + pubkey_text(key@).push('\n') =~= file_text(keys) + pubkey_text(key@)
        + seq!['\n']);
}

/// The updater fetches first where there is a source; then it sleeps, refreshes and sleeps again:
/// by a fetch where there is a source, and by a reload where there is none or the fetch failed.
pub proof fn law_updater_goes_around(fetched: bool)
    ensures
        step_after(true, UpdaterStep::Start, fetched) == UpdaterStep::FirstFetch,
        step_after(false, UpdaterStep::Start, fetched) == UpdaterStep::Sleep,
        step_after(true, UpdaterStep::FirstFetch, fetched) == UpdaterStep::Sleep,
        step_after(false, UpdaterStep::FirstFetch, fetched) == UpdaterStep::Sleep,
        step_after(true, UpdaterStep::Sleep, fetched) == UpdaterStep::Fetch,
        step_after(false, UpdaterStep::Sleep, fetched) == UpdaterStep::Reload,
        step_after(true, UpdaterStep::Fetch, true) == UpdaterStep::Sleep,
        step_after(true, UpdaterStep::Fetch, false) == UpdaterStep::Reload,
        step_after(true, UpdaterStep::Reload, fetched) == UpdaterStep::Sleep,
        step_after(false, UpdaterStep::Reload, fetched) == UpdaterStep::Sleep,
{
}

/// What the local file has to hold after an update is a line for each of the keys that were taken
/// over, each once, and loading it gives those keys back.
pub proof fn law_update_file_lists_the_keys(update: RemoteUpdate, keys: Set<Seq<u8>>)
    requires
        update.is_file_of(keys),
    ensures
        listed_keys(update.file_content@) == keys,
        exists|order: Seq<Pubkey>|
            {
                &&& #[trigger] file_text(order) == update.file_content@
                &&& forall|i: int, j: int|
                    0 <= i < j < order.len() ==> order[i].bytes@ != order[j].bytes@
                &&& forall|i: int| 0 <= i < order.len() ==> keys.contains(order[i].bytes@)
            },
{
    let order = choose|order: Seq<Pubkey>|
        {
            &&& #[trigger] key_bytes(order).no_duplicates()
            &&& key_bytes(order).to_set() == keys
            &&& update.file_content@ == file_text(order)
        };
    assert forall|i: int, j: int| 0 <= i < j < order.len() implies order[i].bytes@
        != order[j].bytes@ by {
        assert(key_bytes(order)[i] == order[i].bytes@ && key_bytes(order)[j] == order[j].bytes@);
    }
    assert forall|i: int| 0 <= i < order.len() implies keys.contains(order[i].bytes@) by {
        assert(key_bytes(order)[i] == order[i].bytes@);
        assert(key_bytes(order).to_set().contains(key_bytes(order)[i]));
    }
}

} // verus!
