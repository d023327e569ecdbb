//! What qBittorrent is asked, and how its answers are read.

use crate::binary64::Binary64;
use crate::config;
use crate::models::{QbTorrent, SpaceSnapshot};
use crate::text;
use url::Url;
use uuid::Uuid;
use vstd::prelude::*;
use vstd::string::*;

verus! {

/// The text of the URL that a text stands for, or why it is none.
pub uninterp spec fn parsed_url(input: Seq<char>) -> Result<Seq<char>, Seq<char>>;

/// `url::Url::parse`, with the URL given by its text (`Url::as_str`) and the error by its message
/// (`ParseError::to_string`). Both depend on the input alone; they are named, not described.
#[verifier::external_body]
fn parse_url(input: &str) -> (r: Result<String, String>)
    ensures
        match r {
            Ok(url) => parsed_url(input@) == Ok::<Seq<char>, Seq<char>>(url@),
            Err(cause) => parsed_url(input@) == Err::<Seq<char>, Seq<char>>(cause@),
        },
{
    match Url::parse(input) {
        Ok(url) => Ok(url.as_str().to_string()),
        Err(cause) => Err(cause.to_string()),
    }
}

/// The host of qBittorrent is not a URL, for the cause given.
#[derive(Debug)]
pub struct HostError {
    pub cause: String,
}

impl HostError {
    /// The message of the error.
    pub fn message(&self) -> (r: &'static str)
        ensures
            r@ == "failed to parse qB host as URL"@,
    {
        "failed to parse qB host as URL"
    }
}

/// The host of qBittorrent without slashes at its end, to which paths are joined.
pub fn host_base(host: &str) -> (r: String)
    ensures
        r@ == text::trim_end_char(host@, '/'),
{
    text::string(text::without_end(text::chars(host).as_slice(), '/'))
}

/// The URL that the session cookie of qBittorrent belongs to.
pub fn cookie_url(base: &str) -> (r: Result<String, HostError>)
    ensures
        match r {
            Ok(url) => parsed_url(base@) == Ok::<Seq<char>, Seq<char>>(url@),
            Err(error) => parsed_url(base@) == Err::<Seq<char>, Seq<char>>(error.cause@),
        },
{
    cookie_url_of(parse_url(base))
}

/// The URL of the session cookie, by what came of reading the host.
pub fn cookie_url_of(parsed: Result<String, String>) -> (r: Result<String, HostError>)
    ensures
        match (parsed, r) {
            (Ok(url), Ok(result)) => result == url,
            (Err(cause), Err(error)) => error.cause == cause,
            _ => false,
        },
{
    match parsed {
        Ok(url) => Ok(url),
        Err(cause) => Err(HostError { cause }),
    }
}

/// The address of a call of qBittorrent's API.
pub fn endpoint(base: &str, call: &str) -> (r: String)
    ensures
        r@ == base@ + "/api/v2/"@ + call@,
{
    let mut address = String::from_str(base);
    address.append("/api/v2/");
    address.append(call);
    address
}

/// A torrent as qBittorrent lists it, where it may leave out most of the numbers.
#[derive(Debug)]
pub struct TorrentListing {
    pub name: String,
    pub hash: String,
    pub state: String,
    pub tags: Option<String>,
    pub total_size: Option<u64>,
    pub size: Option<u64>,
    pub completed: Option<u64>,
    pub added_on: Option<i64>,
    pub upspeed: Option<u64>,
    pub num_leechs: Option<i32>,
    pub num_seeds: Option<i32>,
    pub progress: Option<Binary64>,
}

/// `value`, or `fallback` where it is left out.
pub open spec fn given<T>(value: Option<T>, fallback: T) -> T {
    match value {
        Some(value) => value,
        None => fallback,
    }
}

/// The torrent of a listing: its total size, or else its size, and nothing for what is left out.
pub open spec fn is_listed(torrent: QbTorrent, listing: TorrentListing) -> bool {
    &&& torrent.name == listing.name
    &&& torrent.hash == listing.hash
    &&& torrent.state == listing.state
    &&& torrent.tags@ == match listing.tags {
        Some(tags) => tags@,
        None => Seq::empty(),
    }
    &&& torrent.total_size == given(listing.total_size, given(listing.size, 0))
    &&& torrent.completed == given(listing.completed, 0)
    &&& torrent.added_on == given(listing.added_on, 0)
    &&& torrent.upspeed == given(listing.upspeed, 0)
    &&& torrent.num_leechs == given(listing.num_leechs, 0)
    &&& torrent.num_seeds == given(listing.num_seeds, 0)
    &&& torrent.progress == given(listing.progress, Binary64 { bits: 0 })
}

/// The torrent of a listing.
pub fn listed_torrent(listing: TorrentListing) -> (r: QbTorrent)
    ensures
        is_listed(r, listing),
{
    let tags = match listing.tags {
        Some(tags) => tags,
        None => {
            let none = String::new();
            assert(none@ =~= Seq::<char>::empty());
            none
        },
    };
    QbTorrent {
        name: listing.name,
        hash: listing.hash,
        state: listing.state,
        tags,
        total_size: match listing.total_size {
            Some(size) => size,
            None => listing.size.unwrap_or(0),
        },
        completed: listing.completed.unwrap_or(0),
        added_on: listing.added_on.unwrap_or(0),
        upspeed: listing.upspeed.unwrap_or(0),
        num_leechs: listing.num_leechs.unwrap_or(0),
        num_seeds: listing.num_seeds.unwrap_or(0),
        progress: match listing.progress {
            Some(progress) => progress,
            None => Binary64 { bits: 0 },
        },
    }
}

/// The torrents of the list, in order.
pub fn listed_torrents(listings: Vec<TorrentListing>) -> (r: Vec<QbTorrent>)
    ensures
        r@.len() == listings@.len(),
        forall|i: int| 0 <= i < r@.len() ==> is_listed(#[trigger] r@[i], listings@[i]),
{
    let ghost all = listings@;
    let mut left = listings;
    let mut reversed: Vec<QbTorrent> = Vec::new();
    while left.len() > 0
        invariant
            left@.len() + reversed@.len() == all.len(),
            left@ == all.take(left@.len() as int),
            forall|i: int|
                0 <= i < reversed@.len() ==> is_listed(
                    #[trigger] reversed@[i],
                    all[all.len() - 1 - i],
                ),
        decreases left@.len(),
    {
        let ghost before = left@;
        match left.pop() {
            Some(listing) => {
                assert(listing == all[before.len() - 1]);
                assert(left@ =~= all.take(left@.len() as int));
                reversed.push(listed_torrent(listing));
            },
            None => {},
        }
    }
    let mut torrents: Vec<QbTorrent> = Vec::new();
    while reversed.len() > 0
        invariant
            torrents@.len() + reversed@.len() == all.len(),
            forall|i: int|
                0 <= i < reversed@.len() ==> is_listed(
                    #[trigger] reversed@[i],
                    all[all.len() - 1 - i],
                ),
            forall|i: int| 0 <= i < torrents@.len() ==> is_listed(#[trigger] torrents@[i], all[i]),
        decreases reversed@.len(),
    {
        let ghost before = reversed@;
        match reversed.pop() {
            Some(torrent) => {
                assert(torrent == before[before.len() - 1]);
                torrents.push(torrent);
            },
            None => {},
        }
    }
    torrents
}

/// The torrent that a tag was asked for: the first of the list.
pub fn first_listed(listings: Vec<TorrentListing>) -> (r: Option<QbTorrent>)
    ensures
        match r {
            Some(torrent) => listings@.len() > 0 && is_listed(torrent, listings@[0]),
            None => listings@.len() == 0,
        },
{
    let mut left = listings;
    if left.len() == 0 {
        return None;
    }
    Some(listed_torrent(left.remove(0)))
}

/// The names of some torrents.
pub open spec fn names(torrents: Seq<QbTorrent>) -> Seq<Seq<char>> {
    torrents.map_values(|torrent: QbTorrent| torrent.name@)
}

/// The names of some torrents.
pub fn torrent_names(torrents: &[QbTorrent]) -> (r: Vec<String>)
    ensures
        config::texts(r@) == names(torrents@),
{
    let mut found: Vec<String> = Vec::new();
    let mut i: usize = 0;
    while i < torrents.len()
        invariant
            i <= torrents@.len(),
            found@.len() == i,
            forall|j: int| 0 <= j < i ==> (#[trigger] found@[j])@ == torrents@[j].name@,
        decreases torrents@.len() - i,
    {
        found.push(torrents[i].name.clone());
        i = i + 1;
    }
    assert(config::texts(found@) =~= names(torrents@));
    found
}

/// The states of a torrent that is still to come.
pub open spec fn is_active_state(state: Seq<char>) -> bool {
    ||| state == "downloading"@
    ||| state == "forcedDL"@
    ||| state == "metaDL"@
    ||| state == "forcedMetaDL"@
    ||| state == "stalledDL"@
    ||| state == "checkingDL"@
    ||| state == "queuedDL"@
}

/// The bytes of a torrent that are still to come.
pub open spec fn remaining_bytes(torrent: QbTorrent) -> nat {
    if is_active_state(torrent.state@) && torrent.completed < torrent.total_size {
        (torrent.total_size - torrent.completed) as nat
    } else {
        0
    }
}

/// The bytes of some torrents that are still to come.
pub open spec fn outstanding_bytes(torrents: Seq<QbTorrent>) -> nat
    decreases torrents.len(),
{
    if torrents.len() == 0 {
        0
    } else {
        outstanding_bytes(torrents.drop_last()) + remaining_bytes(torrents.last())
    }
}

/// Whether a torrent in that state is still to come.
fn active(state: &str) -> (r: bool)
    ensures
        r == is_active_state(state@),
{
    text::same_text(state, "downloading") || text::same_text(state, "forcedDL") || text::same_text(
        state,
        "metaDL",
    ) || text::same_text(state, "forcedMetaDL") || text::same_text(state, "stalledDL")
        || text::same_text(state, "checkingDL") || text::same_text(state, "queuedDL")
}

/// The bytes of a torrent that are still to come.
fn remaining(torrent: &QbTorrent) -> (r: u64)
    ensures
        r == remaining_bytes(*torrent),
{
    if active(torrent.state.as_str()) {
        torrent.total_size.saturating_sub(torrent.completed)
    } else {
        0
    }
}

/// The free space on the disk and what the torrents will still take of it. The sum is kept in 64
/// bits: beyond them it wraps around.
pub fn space_snapshot(free_space_on_disk: u64, torrents: &[QbTorrent]) -> (r: SpaceSnapshot)
    ensures
        r.free_space_bytes == free_space_on_disk,
        r.downloading_remaining_bytes == outstanding_bytes(torrents@) % 0x1_0000_0000_0000_0000,
{
    let mut sum: u64 = 0;
    let mut i: usize = 0;
    assert(torrents@.take(0) =~= Seq::<QbTorrent>::empty());
    while i < torrents.len()
        invariant
            i <= torrents@.len(),
            sum == outstanding_bytes(torrents@.take(i as int)) % 0x1_0000_0000_0000_0000,
        decreases torrents@.len() - i,
    {
        assert(torrents@.take(i + 1).drop_last() =~= torrents@.take(i as int));
        sum = sum.wrapping_add(remaining(&torrents[i]));
        i = i + 1;
    }
    assert(torrents@.take(torrents@.len() as int) =~= torrents@);
    SpaceSnapshot { free_space_bytes: free_space_on_disk, downloading_remaining_bytes: sum }
}

/// The dictionary of a torrent file that names it.
#[derive(Debug)]
pub struct TorrentInfoDict {
    pub name: Option<String>,
    pub name_utf8: Option<String>,
    pub pieces: Option<Vec<u8>>,
}

/// What a torrent file says of itself.
#[derive(Debug)]
pub struct TorrentMetaInfo {
    pub info: TorrentInfoDict,
}

/// Why the name of a torrent file is not known.
#[derive(Debug)]
pub enum NameError {
    /// The file is none of a torrent.
    Unreadable,
    /// The file holds no name.
    Missing,
}

impl NameError {
    pub open spec fn spec_message(self) -> Seq<char> {
        match self {
            NameError::Unreadable => "failed to parse torrent metadata with serde_bencode"@,
            NameError::Missing => "torrent info dictionary did not contain a name field"@,
        }
    }

    /// The message of the error.
    pub fn message(&self) -> (r: &'static str)
        ensures
            r@ == self.spec_message(),
    {
        match self {
            NameError::Unreadable => "failed to parse torrent metadata with serde_bencode",
            NameError::Missing => "torrent info dictionary did not contain a name field",
        }
    }
}

/// The name of a torrent by what its file says, where that could be read: the name in UTF-8, or
/// else the other one.
pub fn extract_torrent_name(meta: Option<TorrentMetaInfo>) -> (r: Result<String, NameError>)
    ensures
        r == (match meta {
            None => Err(NameError::Unreadable),
            Some(meta) => match (meta.info.name_utf8, meta.info.name) {
                (Some(name), _) => Ok(name),
                (None, Some(name)) => Ok(name),
                (None, None) => Err(NameError::Missing),
            },
        }),
{
    match meta {
        None => Err(NameError::Unreadable),
        Some(meta) => match meta.info.name_utf8 {
            Some(name) => Ok(name),
            None => match meta.info.name {
                Some(name) => Ok(name),
                None => Err(NameError::Missing),
            },
        },
    }
}

/// Why a torrent was not added.
#[derive(Debug)]
pub enum AddError {
    /// A torrent of that name is there.
    Present { name: String },
    /// qBittorrent answered with an error status.
    Status { status: String, body: String },
    /// qBittorrent turned the torrent down.
    Rejected { torrent: Option<String> },
    /// The torrent never showed up.
    Undetected,
}

impl AddError {
    pub open spec fn spec_message(self) -> Seq<char> {
        match self {
            AddError::Present { name } => "torrent appears to already exist in qB by name: "@
                + name@,
            AddError::Status { status, body } => "qB add torrent endpoint returned error status "@
                + status@ + " with body "@ + body@,
            AddError::Rejected { torrent: None } =>
                "qB rejected torrent add request with body 'Fails.'"@,
            AddError::Rejected { torrent: Some(name) } =>
                "qB rejected torrent add request with body 'Fails.'"@ + " (torrent name: "@ + name@
                + ")"@,
            AddError::Undetected =>
                "torrent added request succeeded but no new qB torrent was detected"@,
        }
    }

    /// The message of the error.
    pub fn message(&self) -> (r: String)
        ensures
            r@ == self.spec_message(),
    {
        match self {
            AddError::Present { name } => {
                let mut line = String::from_str("torrent appears to already exist in qB by name: ");
                line.append(name.as_str());
                line
            },
            AddError::Status { status, body } => {
                let mut line = String::from_str("qB add torrent endpoint returned error status ");
                line.append(status.as_str());
                line.append(" with body ");
                line.append(body.as_str());
                line
            },
            AddError::Rejected { torrent } => {
                let mut line = String::from_str(
                    "qB rejected torrent add request with body 'Fails.'",
                );
                match torrent {
                    Some(name) => {
                        line.append(" (torrent name: ");
                        line.append(name.as_str());
                        line.append(")");
                    },
                    None => {},
                }
                line
            },
            AddError::Undetected => String::from_str(
                "torrent added request succeeded but no new qB torrent was detected",
            ),
        }
    }
}

/// Whether a name is among others.
pub fn is_among(name: &str, others: &[String]) -> (r: bool)
    ensures
        r == config::texts(others@).contains(name@),
{
    let ghost all = config::texts(others@);
    let mut i: usize = 0;
    while i < others.len()
        invariant
            i <= others@.len(),
            all == config::texts(others@),
            forall|j: int| 0 <= j < i ==> #[trigger] all[j] != name@,
        decreases others@.len() - i,
    {
        assert(all[i as int] == others@[i as int]@);
        if text::same_text(others[i].as_str(), name) {
            return true;
        }
        i = i + 1;
    }
    false
}

/// Turns a torrent down whose name is there already. One whose name is not known passes.
pub fn check_new(name: &Option<String>, existing: &[String]) -> (r: Result<(), AddError>)
    ensures
        r == (match *name {
            Some(name) if config::texts(existing@).contains(name@) => Err(
                AddError::Present { name },
            ),
            _ => Ok(()),
        }),
{
    match name {
        Some(known) => {
            if is_among(known.as_str(), existing) {
                Err(AddError::Present { name: known.clone() })
            } else {
                Ok(())
            }
        },
        None => Ok(()),
    }
}

/// The characters of a number in base sixteen, written small.
pub open spec fn is_hex_digit(c: char) -> bool {
    '0' <= c <= '9' || 'a' <= c <= 'f'
}

/// The text of a random identifier: thirty-two digits in base sixteen, of which one gives the
/// version and one the variant.
pub open spec fn is_identifier(id: Seq<char>) -> bool {
    &&& id.len() == 32
    &&& forall|i: int| 0 <= i < 32 ==> is_hex_digit(#[trigger] id[i])
    &&& id[12] == '4'
    &&& id[16] == '8' || id[16] == '9' || id[16] == 'a' || id[16] == 'b'
}

/// `uuid::Uuid::new_v4` and `Uuid::simple`: a random identifier of version 4, written as digits in
/// base sixteen without hyphens. Which one comes is left to chance; that no two are equal is not
/// claimed. The call relies on the system to give random bytes.
#[verifier::external_body]
fn random_identifier() -> (r: String)
    ensures
        is_identifier(r@),
{
    Uuid::new_v4().simple().to_string()
}

/// The tag that a torrent is found again by, with an identifier of its own.
pub fn tag_with(id: &str) -> (r: String)
    ensures
        r@ == "temp_"@ + id@,
{
    let mut tag = String::from_str("temp_");
    tag.append(id);
    tag
}

/// A tag that a torrent can be found again by.
pub fn unique_tag() -> (r: String)
    ensures
        exists|id: Seq<char>| is_identifier(id) && r@ == #[trigger] ("temp_"@ + id),
{
    let id = random_identifier();
    tag_with(id.as_str())
}

/// The fields of a request to add a torrent.
#[derive(Debug)]
pub struct AddRequest {
    pub file_name: String,
    pub savepath: String,
    pub paused: &'static str,
    pub tags: String,
}

/// The request to add a torrent.
pub fn add_request(torrent_id: &str, save_path: &str, paused: bool, tag: &str) -> (r: AddRequest)
    ensures
        r.file_name@ == torrent_id@ + ".torrent"@,
        r.savepath@ == save_path@,
        r.paused@ == (if paused {
            "true"@
        } else {
            "false"@
        }),
        r.tags@ == tag@,
{
    let mut file_name = String::from_str(torrent_id);
    file_name.append(".torrent");
    AddRequest {
        file_name,
        savepath: String::from_str(save_path),
        paused: if paused {
            "true"
        } else {
            "false"
        },
        tags: String::from_str(tag),
    }
}

/// What the answer to such a request means.
pub open spec fn is_judgement(
    r: Result<(), AddError>,
    success: bool,
    status: Seq<char>,
    body: Seq<char>,
    name: Option<String>,
) -> bool {
    if !success {
        &&& r matches Err(AddError::Status { status: shown, body: answer })
        &&& shown@ == status
        &&& answer@ == text::trim(body)
    } else if text::trim(body) == "Fails."@ {
        r == Err::<(), AddError>(AddError::Rejected { torrent: name })
    } else {
        r is Ok
    }
}

/// Judges the answer to a request to add a torrent.
pub fn judge_answer(success: bool, status: &str, body: &str, name: &Option<String>) -> (r: Result<
    (),
    AddError,
>)
    ensures
        is_judgement(r, success, status@, body@, *name),
{
    let answer = text::trimmed_text(body);
    if !success {
        return Err(AddError::Status { status: String::from_str(status), body: answer });
    }
    if text::same_text(answer.as_str(), "Fails.") {
        return Err(
            AddError::Rejected {
                torrent: match name {
                    Some(known) => Some(known.clone()),
                    None => None,
                },
            },
        );
    }
    Ok(())
}

/// How often qBittorrent is asked for a torrent that was added.
pub const MOST_POLLS: u32 = 10;

/// How long is waited before each time.
pub const POLL_PAUSE_MILLIS: u64 = 500;

/// What follows on one answer.
#[derive(Debug)]
pub enum Poll {
    /// The torrent is there: its tag is taken off, and all is done.
    Found(QbTorrent),
    /// qBittorrent is asked again.
    Again,
    /// The torrent is given up.
    Failed(AddError),
}

/// What follows once qBittorrent was asked `polls` times for a torrent, the last time with that
/// answer.
pub fn judge_poll(polls: u32, found: Option<QbTorrent>) -> (r: Poll)
    ensures
        r == (match found {
            Some(torrent) => Poll::Found(torrent),
            None => if polls < MOST_POLLS {
                Poll::Again
            } else {
                Poll::Failed(AddError::Undetected)
            },
        }),
{
    match found {
        Some(torrent) => Poll::Found(torrent),
        None => if polls < MOST_POLLS {
            Poll::Again
        } else {
            Poll::Failed(AddError::Undetected)
        },
    }
}

} // verus!
