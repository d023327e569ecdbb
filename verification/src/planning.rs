//! What of the torrents on offer is taken, and what is removed to make room for it.

use crate::config;
use crate::config::Config;
use crate::lines;
use crate::models::{QbTorrent, TorrentInfo};
use crate::qb_client;
use crate::qb_client::NameError;
use crate::rotation;
use crate::text;
use vstd::prelude::*;
use vstd::string::*;

verus! {

/// What came of fetching a torrent file: the cause of the failure, or the file and the name in it.
#[derive(Debug)]
pub enum Fetched {
    Failed(String),
    File(Vec<u8>, Result<String, NameError>),
}

/// What is to be done next.
#[derive(Debug)]
pub enum Step {
    /// The file of the torrent of that identifier is wanted.
    Fetch(String),
    /// A torrent was left out; the next one follows.
    Skipped,
    /// All torrents were considered.
    Done,
}

/// The hashes of some torrents.
pub open spec fn hashes(torrents: Seq<QbTorrent>) -> Seq<Seq<char>> {
    torrents.map_values(|torrent: QbTorrent| torrent.hash@)
}

/// The bytes of some torrents on offer together.
pub open spec fn offered_bytes(torrents: Seq<TorrentInfo>) -> nat
    decreases torrents.len(),
{
    if torrents.len() == 0 {
        0
    } else {
        offered_bytes(torrents.drop_last()) + (torrents.last().size_bytes->0) as nat
    }
}

/// The state of the planning.
#[verifier::ext_equal]
pub struct PlanView {
    /// The torrents on offer, the most wanted first, and how many of them were considered.
    pub queue: Seq<TorrentInfo>,
    pub next: nat,
    /// The torrents that are taken, and their files.
    pub planned: Seq<TorrentInfo>,
    pub files: Seq<Seq<u8>>,
    /// How many torrents were new, how many were there, and how many were left out.
    pub rough: nat,
    pub duplicates: nat,
    pub skipped: nat,
    /// The bytes that may still be stored and downloaded, at the start and now.
    pub start_capacity: nat,
    pub start_budget: nat,
    pub capacity: nat,
    pub budget: nat,
    /// The torrents that are removed, and the bytes that they free.
    pub selected: Seq<QbTorrent>,
    pub reclaimed: nat,
    /// The torrents that may be removed, whether they are, and how many at most.
    pub pool: Seq<QbTorrent>,
    pub auto_rotate: bool,
    pub max_remove: nat,
    /// The names of the torrents that are there.
    pub names: Seq<Seq<char>>,
    /// The lines that were logged.
    pub log: Seq<Seq<char>>,
}

impl PlanView {
    /// The torrent under consideration.
    pub open spec fn current(self) -> TorrentInfo {
        self.queue[self.next as int]
    }

    /// Its size.
    pub open spec fn size(self) -> nat {
        (self.current().size_bytes->0) as nat
    }

    /// The file of the torrent under consideration is wanted.
    pub open spec fn wants_file(self) -> bool {
        self.next < self.queue.len() && self.current().size_bytes is Some && self.size()
            <= self.budget
    }

    pub open spec fn logged(self, line: Seq<char>) -> PlanView {
        PlanView { log: self.log.push(line), ..self }
    }

    /// The torrent is left out.
    pub open spec fn left_out(self, line: Seq<char>) -> PlanView {
        PlanView { skipped: self.skipped + 1, next: self.next + 1, ..self.logged(line) }
    }

    /// The torrent is left out, for it is there.
    pub open spec fn found_present(self, line: Seq<char>) -> PlanView {
        PlanView { duplicates: self.duplicates + 1, next: self.next + 1, ..self.logged(line) }
    }

    /// The torrent is taken.
    pub open spec fn taken(self, file: Seq<u8>) -> PlanView {
        PlanView {
            next: self.next + 1,
            planned: self.planned.push(self.current()),
            files: self.files.push(file),
            capacity: (self.capacity - self.size()) as nat,
            budget: (self.budget - self.size()) as nat,
            ..self
        }
    }

    /// What happens to a torrent before its file is wanted.
    pub open spec fn examined(self) -> PlanView {
        if self.next >= self.queue.len() || self.wants_file() {
            self
        } else if self.current().size_bytes is None {
            self.left_out(lines::size_missing(self.current()))
        } else {
            self.left_out(lines::over_budget(self.current(), self.budget))
        }
    }

    /// The torrents that may still be removed.
    pub open spec fn available(self) -> Seq<QbTorrent> {
        self.pool.filter(
            |torrent: QbTorrent| !hashes(self.selected).contains(torrent.hash@),
        )
    }

    /// The bytes that the torrent lacks.
    pub open spec fn required(self) -> nat {
        (self.size() - self.capacity) as nat
    }

    /// How many torrents may still be removed.
    pub open spec fn removals_left(self) -> nat {
        if self.selected.len() <= self.max_remove {
            (self.max_remove - self.selected.len()) as nat
        } else {
            0
        }
    }

    /// What would be removed for the torrent.
    pub open spec fn removal(self) -> Seq<QbTorrent> {
        rotation::planned_removal(self.available(), self.required(), self.removals_left())
    }

    /// One more torrent is removed, unless its hash is that of another one.
    pub open spec fn with_removal(self, torrent: QbTorrent, now: int) -> PlanView {
        if hashes(self.selected).contains(torrent.hash@) {
            self
        } else {
            PlanView {
                selected: self.selected.push(torrent),
                reclaimed: rotation::held_u64(self.reclaimed + torrent.total_size as nat),
                capacity: rotation::held_u64(self.capacity + torrent.total_size as nat),
                ..self.logged(lines::removal_planned(torrent, now))
            }
        }
    }

    pub open spec fn with_removals(self, torrents: Seq<QbTorrent>, now: int) -> PlanView
        decreases torrents.len(),
    {
        if torrents.len() == 0 {
            self
        } else {
            self.with_removals(torrents.drop_last(), now).with_removal(torrents.last(), now)
        }
    }

    /// The torrent is taken where there is room.
    pub open spec fn concluded(self, file: Seq<u8>) -> PlanView {
        if self.size() > self.capacity {
            self.left_out(lines::no_room(self.current(), self.size(), self.capacity))
        } else {
            self.taken(file)
        }
    }

    /// Room is made for the torrent where it lacks some.
    pub open spec fn placed(self, file: Seq<u8>, now: int) -> PlanView {
        let freed = rotation::held_u64(rotation::total_bytes(self.removal()));
        if self.size() <= self.capacity {
            self.concluded(file)
        } else if !self.auto_rotate {
            self.left_out(lines::rotation_off(self.current(), self.required()))
        } else if freed < self.required() {
            self.left_out(lines::still_short(self.current(), (self.required() - freed) as nat))
        } else {
            self.with_removals(self.removal(), now).concluded(file)
        }
    }

    /// The torrent is new.
    pub open spec fn as_new(self) -> PlanView {
        PlanView { rough: self.rough + 1, ..self }
    }

    /// What happens to a torrent once its file was fetched.
    pub open spec fn settled(self, fetched: Fetched, now: int) -> PlanView {
        match fetched {
            Fetched::Failed(cause) => self.left_out(
                lines::download_failed(self.current(), cause@),
            ),
            Fetched::File(file, Ok(name)) => if self.names.contains(name@) {
                self.found_present(lines::duplicate(self.current(), name@))
            } else {
                self.as_new().placed(file@, now)
            },
            Fetched::File(file, Err(error)) => self.logged(
                lines::unnamed(self.current(), error.spec_message()),
            ).as_new().placed(file@, now),
        }
    }

    /// Every torrent that was considered is taken, there or left out, and the new ones are among
    /// those not there.
    pub open spec fn adds_up(self) -> bool {
        &&& self.next <= self.queue.len()
        &&& self.next == self.planned.len() + self.duplicates + self.skipped
        &&& self.planned.len() <= self.rough
        &&& self.rough + self.duplicates <= self.next
    }

    /// No more is taken than may be downloaded, or stored once what is selected is gone.
    pub open spec fn fits(self) -> bool {
        &&& self.files.len() == self.planned.len()
        &&& forall|i: int|
            0 <= i < self.planned.len() ==> (#[trigger] self.planned[i]).size_bytes is Some
                && self.queue.contains(self.planned[i])
        &&& offered_bytes(self.planned) + self.budget == self.start_budget
        &&& offered_bytes(self.planned) + self.capacity <= self.start_capacity
            + rotation::total_bytes(self.selected)
    }

    /// What is selected comes out of the pool, each hash once and no more than the limit, and
    /// nothing where nothing may be removed.
    pub open spec fn removes_properly(self) -> bool {
        &&& self.reclaimed == rotation::held_u64(rotation::total_bytes(self.selected))
        &&& self.selected.len() <= self.max_remove
        &&& !self.auto_rotate ==> self.selected.len() == 0
        &&& hashes(self.selected).no_duplicates()
        &&& forall|i: int|
            0 <= i < self.selected.len() ==> self.pool.contains(#[trigger] self.selected[i])
    }

    /// Where each torrent of the pool has a hash of its own, something is taken if something is
    /// removed.
    pub open spec fn removes_for_good(self) -> bool {
        hashes(self.pool).no_duplicates() && self.selected.len() > 0 ==> self.planned.len() > 0
    }

    /// What holds at every step of the planning.
    pub open spec fn wf(self) -> bool {
        self.adds_up() && self.fits() && self.removes_properly() && self.removes_for_good()
    }

    /// What the planning starts from, and never changes.
    pub open spec fn same_terms(self, other: PlanView) -> bool {
        &&& other.queue == self.queue
        &&& other.start_capacity == self.start_capacity
        &&& other.start_budget == self.start_budget
        &&& other.pool == self.pool
        &&& other.auto_rotate == self.auto_rotate
        &&& other.max_remove == self.max_remove
        &&& other.names == self.names
    }

    /// What does not change while torrents are selected for removal.
    pub open spec fn same_but_removals(self, other: PlanView) -> bool {
        other == PlanView {
            selected: other.selected,
            reclaimed: other.reclaimed,
            capacity: other.capacity,
            log: other.log,
            ..self
        }
    }
}

proof fn lemma_hash_new(selected: Seq<QbTorrent>, torrent: QbTorrent)
    requires
        hashes(selected).no_duplicates(),
        !hashes(selected).contains(torrent.hash@),
    ensures
        hashes(selected.push(torrent)).no_duplicates(),
{
    let before = hashes(selected);
    let after = hashes(selected.push(torrent));
    assert(after =~= before.push(torrent.hash@));
    assert forall|i: int, j: int| 0 <= i < after.len() && 0 <= j < after.len() && i != j implies
        after[i] != after[j] by {
        if i < before.len() && j < before.len() {
            assert(before[i] != before[j]);
        } else if i < before.len() {
            assert(before.contains(before[i]));
        } else {
            assert(before.contains(before[j]));
        }
    }
}

proof fn lemma_with_removals(plan: PlanView, torrents: Seq<QbTorrent>, now: int)
    requires
        plan.fits(),
        plan.removes_properly(),
        plan.auto_rotate,
        plan.selected.len() + torrents.len() <= plan.max_remove,
        forall|i: int| 0 <= i < torrents.len() ==> plan.pool.contains(#[trigger] torrents[i]),
    ensures
        plan.with_removals(torrents, now).fits(),
        plan.with_removals(torrents, now).removes_properly(),
        plan.same_but_removals(plan.with_removals(torrents, now)),
        plan.with_removals(torrents, now).selected.len() <= plan.selected.len() + torrents.len(),
    decreases torrents.len(),
{
    if torrents.len() > 0 {
        let rest = torrents.drop_last();
        assert forall|i: int| 0 <= i < rest.len() implies plan.pool.contains(
            #[trigger] rest[i],
        ) by {
            assert(rest[i] == torrents[i]);
        }
        lemma_with_removals(plan, rest, now);
        let before = plan.with_removals(rest, now);
        let after = before.with_removal(torrents.last(), now);
        if !hashes(before.selected).contains(torrents.last().hash@) {
            lemma_hash_new(before.selected, torrents.last());
            assert(after.selected.drop_last() =~= before.selected);
            assert(torrents.last() == torrents[torrents.len() - 1]);
            assert forall|i: int| 0 <= i < after.selected.len() implies after.pool.contains(
                #[trigger] after.selected[i],
            ) by {
                if i < before.selected.len() {
                    assert(after.selected[i] == before.selected[i]);
                }
            }
        }
    }
}

proof fn lemma_concluded(plan: PlanView, file: Seq<u8>)
    requires
        plan.fits(),
        plan.removes_properly(),
        plan.wants_file(),
        plan.next == plan.planned.len() + plan.duplicates + plan.skipped,
        plan.planned.len() < plan.rough,
        plan.rough + plan.duplicates <= plan.next + 1,
    ensures
        plan.concluded(file).adds_up(),
        plan.concluded(file).fits(),
        plan.concluded(file).removes_properly(),
        plan.concluded(file).planned.len() >= plan.planned.len(),
{
    let after = plan.concluded(file);
    if plan.size() <= plan.capacity {
        assert(after.planned.drop_last() =~= plan.planned);
        assert forall|i: int| 0 <= i < after.planned.len() implies (
        #[trigger] after.planned[i]).size_bytes is Some && after.queue.contains(
            after.planned[i],
        ) by {
            if i < plan.planned.len() {
                assert(after.planned[i] == plan.planned[i]);
            } else {
                assert(after.planned[i] == plan.queue[plan.next as int]);
            }
        }
    }
}

proof fn lemma_removal(plan: PlanView)
    requires
        plan.selected.len() <= plan.max_remove,
    ensures
        plan.removal().len() + plan.selected.len() <= plan.max_remove,
        forall|i: int|
            0 <= i < plan.removal().len() ==> plan.pool.contains(#[trigger] plan.removal()[i]),
{
    let available = plan.available();
    let most = plan.removals_left();
    let open_to = if most <= available.len() {
        available.take(most as int)
    } else {
        available
    };
    rotation::law_needed_is_minimal(open_to, plan.required());
    assert forall|i: int| 0 <= i < plan.removal().len() implies plan.pool.contains(
        #[trigger] plan.removal()[i],
    ) by {
        assert(plan.removal()[i] == available[i]);
        plan.pool.lemma_filter_contains_rev(
            |torrent: QbTorrent| !hashes(plan.selected).contains(torrent.hash@),
            available[i],
        );
    }
}

proof fn lemma_placed(plan: PlanView, file: Seq<u8>, now: int)
    requires
        plan.fits(),
        plan.removes_properly(),
        plan.wants_file(),
        plan.next == plan.planned.len() + plan.duplicates + plan.skipped,
        plan.planned.len() < plan.rough,
        plan.rough + plan.duplicates <= plan.next + 1,
    ensures
        plan.placed(file, now).adds_up(),
        plan.placed(file, now).fits(),
        plan.placed(file, now).removes_properly(),
        plan.placed(file, now).planned.len() >= plan.planned.len(),
        plan.same_terms(plan.placed(file, now)),
        plan.placed(file, now).next == plan.next + 1,
{
    if plan.size() <= plan.capacity {
        lemma_concluded(plan, file);
    } else if plan.auto_rotate && rotation::held_u64(rotation::total_bytes(plan.removal()))
        >= plan.required() {
        lemma_removal(plan);
        lemma_with_removals(plan, plan.removal(), now);
        lemma_concluded(plan.with_removals(plan.removal(), now), file);
    }
}

/// Looking at the next torrent keeps the numbers in order, and all that the planning starts from.
pub proof fn law_examining_keeps_order(plan: PlanView)
    requires
        plan.wf(),
    ensures
        plan.examined().wf(),
        plan.same_terms(plan.examined()),
{
}

/// Whatever came of fetching a file, the numbers stay in order, and so does all that the planning
/// starts from; and the torrent is done with.
pub proof fn law_settling_keeps_order(plan: PlanView, fetched: Fetched, now: int)
    requires
        plan.wf(),
        plan.wants_file(),
    ensures
        plan.settled(fetched, now).wf(),
        plan.same_terms(plan.settled(fetched, now)),
        plan.settled(fetched, now).next == plan.next + 1,
{
    if hashes(plan.pool).no_duplicates() {
        law_removal_serves_a_torrent(plan, fetched, now);
    }
    match fetched {
        Fetched::Failed(_) => {},
        Fetched::File(file, Ok(name)) => {
            if !plan.names.contains(name@) {
                lemma_placed(plan.as_new(), file@, now);
            }
        },
        Fetched::File(file, Err(error)) => {
            let warned = plan.logged(lines::unnamed(plan.current(), error.spec_message()));
            lemma_placed(warned.as_new(), file@, now);
        },
    }
}

proof fn lemma_selected_within_pool(plan: PlanView)
    requires
        plan.removes_properly(),
    ensures
        plan.selected.len() <= plan.pool.len(),
{
    let selected = plan.selected;
    assert forall|i: int, j: int| 0 <= i < selected.len() && 0 <= j < selected.len() && i
        != j implies selected[i] != selected[j] by {
        assert(hashes(selected)[i] != hashes(selected)[j]);
    }
    assert forall|torrent: QbTorrent| selected.to_set().contains(
        torrent,
    ) implies #[trigger] plan.pool.to_set().contains(torrent) by {
        let i = choose|i: int| 0 <= i < selected.len() && selected[i] == torrent;
        assert(plan.pool.contains(selected[i]));
    }
    selected.unique_seq_to_set();
    plan.pool.lemma_cardinality_of_set();
    vstd::seq_lib::seq_to_set_is_finite(plan.pool);
    vstd::set_lib::lemma_len_subset(selected.to_set(), plan.pool.to_set());
}

/// No more is taken than may be downloaded, nor than fits once what is selected is gone; and no
/// more is selected than may be, nor than there is in the pool.
pub proof fn law_plan_within_limits(plan: PlanView)
    requires
        plan.wf(),
    ensures
        offered_bytes(plan.planned) <= plan.start_budget,
        offered_bytes(plan.planned) <= plan.start_capacity + rotation::total_bytes(plan.selected),
        plan.selected.len() == 0 ==> offered_bytes(plan.planned) <= plan.start_capacity,
        plan.selected.len() <= plan.max_remove,
        plan.selected.len() <= plan.pool.len(),
{
    lemma_selected_within_pool(plan);
    if plan.selected.len() == 0 {
        assert(rotation::total_bytes(plan.selected) == 0);
    }
}

/// What is removed for new torrents is managed, complete and there, and never kept.
pub proof fn law_kept_torrents_stay(
    plan: PlanView,
    present: Seq<QbTorrent>,
    config: Config,
    now: int,
    i: int,
)
    requires
        plan.wf(),
        plan.pool == rotation::cleanup_pool(present, config, now),
        present.len() <= usize::MAX,
        0 <= i < plan.selected.len(),
    ensures
        present.contains(plan.selected[i]),
        rotation::is_managed(plan.selected[i]),
        rotation::is_completed(plan.selected[i]),
        !rotation::is_kept(plan.selected[i]),
{
    assert(plan.pool.contains(plan.selected[i]));
    rotation::law_pool_holds_the_removable(present, config, now, plan.selected[i]);
}

proof fn lemma_filtered_pool(pool: Seq<QbTorrent>, wanted: spec_fn(QbTorrent) -> bool)
    requires
        hashes(pool).no_duplicates(),
    ensures
        hashes(pool.filter(wanted)).no_duplicates(),
        forall|hash: Seq<char>| #[trigger]
            hashes(pool.filter(wanted)).contains(hash) ==> hashes(pool).contains(hash),
    decreases pool.len(),
{
    reveal(Seq::filter);
    if pool.len() > 0 {
        let rest = pool.drop_last();
        let last = pool.last();
        assert(hashes(rest) =~= hashes(pool).drop_last());
        lemma_filtered_pool(rest, wanted);
        let kept = rest.filter(wanted);
        if wanted(last) {
            assert(!hashes(kept).contains(last.hash@)) by {
                if hashes(kept).contains(last.hash@) {
                    assert(hashes(rest).contains(last.hash@));
                    let k = choose|k: int|
                        0 <= k < hashes(rest).len() && hashes(rest)[k] == last.hash@;
                    assert(hashes(pool)[k] == hashes(pool)[pool.len() - 1]);
                }
            }
            lemma_hash_new(kept, last);
        }
        assert forall|hash: Seq<char>| #[trigger]
            hashes(pool.filter(wanted)).contains(hash) implies hashes(pool).contains(hash) by {
            let k = choose|k: int|
                0 <= k < pool.filter(wanted).len() && hashes(pool.filter(wanted))[k] == hash;
            if k < kept.len() {
                assert(hashes(kept)[k] == hash);
                assert(hashes(kept).contains(hash));
                assert(hashes(rest).contains(hash));
                let j = choose|j: int| 0 <= j < rest.len() && hashes(rest)[j] == hash;
                assert(hashes(pool)[j] == hash);
            } else {
                assert(hashes(pool)[pool.len() - 1] == hash);
            }
        }
    }
}

proof fn lemma_all_removed(plan: PlanView, torrents: Seq<QbTorrent>, now: int)
    requires
        hashes(torrents).no_duplicates(),
        forall|i: int|
            0 <= i < torrents.len() ==> !hashes(plan.selected).contains(
                (#[trigger] torrents[i]).hash@,
            ),
        plan.capacity <= u64::MAX,
    ensures
        plan.with_removals(torrents, now).selected == plan.selected + torrents,
        plan.with_removals(torrents, now).capacity == rotation::held_u64(
            plan.capacity + rotation::total_bytes(torrents),
        ),
        plan.same_but_removals(plan.with_removals(torrents, now)),
    decreases torrents.len(),
{
    if torrents.len() == 0 {
        assert(plan.selected + torrents =~= plan.selected);
    } else {
        let rest = torrents.drop_last();
        let last = torrents.last();
        assert(hashes(rest) =~= hashes(torrents).drop_last());
        assert forall|i: int| 0 <= i < rest.len() implies !hashes(plan.selected).contains(
            (#[trigger] rest[i]).hash@,
        ) by {
            assert(rest[i] == torrents[i]);
        }
        lemma_all_removed(plan, rest, now);
        let before = plan.with_removals(rest, now);
        assert(!hashes(before.selected).contains(last.hash@)) by {
            if hashes(before.selected).contains(last.hash@) {
                let k = choose|k: int|
                    0 <= k < before.selected.len() && hashes(before.selected)[k] == last.hash@;
                if k < plan.selected.len() {
                    assert(hashes(plan.selected)[k] == last.hash@);
                    assert(last == torrents[torrents.len() - 1]);
                } else {
                    let j = k - plan.selected.len();
                    assert(hashes(torrents)[j] == hashes(torrents)[torrents.len() - 1]);
                }
            }
        }
        assert((plan.selected + rest).push(last) =~= plan.selected + torrents);
    }
}

/// What is planned for removal is added to what is selected, all of it, and frees its bytes.
pub proof fn lemma_removal_is_added(plan: PlanView, start: PlanView, now: int)
    requires
        plan.wf(),
        plan.wants_file(),
        hashes(plan.pool).no_duplicates(),
        plan.size() > plan.capacity,
        start == (PlanView { rough: start.rough, log: start.log, ..plan }),
        rotation::held_u64(rotation::total_bytes(plan.removal())) >= plan.required(),
    ensures
        start.removal() == plan.removal(),
        start.with_removals(plan.removal(), now).selected == plan.selected + plan.removal(),
        start.with_removals(plan.removal(), now).capacity == rotation::held_u64(
            plan.capacity + rotation::total_bytes(plan.removal()),
        ),
        start.with_removals(plan.removal(), now).size() == plan.size(),
        start.with_removals(plan.removal(), now).capacity >= plan.size(),
        start.same_but_removals(start.with_removals(plan.removal(), now)),
{
    let wanted = |torrent: QbTorrent| !hashes(plan.selected).contains(torrent.hash@);
    let available = plan.available();
    let removal = plan.removal();
    lemma_filtered_pool(plan.pool, wanted);
    let most = plan.removals_left();
    let open_to = if most <= available.len() {
        available.take(most as int)
    } else {
        available
    };
    rotation::law_needed_is_minimal(open_to, plan.required());
    let n = rotation::needed(open_to, plan.required()) as int;
    assert(removal =~= available.take(n));
    assert(hashes(removal) =~= hashes(available).take(n));
    assert forall|i: int| 0 <= i < removal.len() implies !hashes(plan.selected).contains(
        (#[trigger] removal[i]).hash@,
    ) by {
        assert(removal[i] == available[i]);
        plan.pool.lemma_filter_pred(wanted, i);
    }
    assert(start.removal() == removal);
    lemma_all_removed(start, removal, now);
}

/// Where each torrent of the pool has a hash of its own, torrents are removed for a torrent only
/// if it is then taken.
pub proof fn law_removal_serves_a_torrent(plan: PlanView, fetched: Fetched, now: int)
    requires
        plan.wf(),
        plan.wants_file(),
        hashes(plan.pool).no_duplicates(),
    ensures
        plan.settled(fetched, now).selected != plan.selected ==> plan.settled(fetched, now).planned
            == plan.planned.push(plan.current()),
{
    let freed = rotation::held_u64(rotation::total_bytes(plan.removal()));
    if plan.size() > plan.capacity && plan.auto_rotate && freed >= plan.required() {
        let warned = match fetched {
            Fetched::File(_, Err(error)) => plan.logged(
                lines::unnamed(plan.current(), error.spec_message()),
            ),
            _ => plan,
        };
        lemma_removal_is_added(plan, warned.as_new(), now);
    }
}

/// A torrent whose name is there is neither taken, nor is anything removed for it.
pub proof fn law_duplicates_change_nothing(plan: PlanView, file: Vec<u8>, name: String, now: int)
    requires
        plan.names.contains(name@),
    ensures
        plan.settled(Fetched::File(file, Ok(name)), now).planned == plan.planned,
        plan.settled(Fetched::File(file, Ok(name)), now).selected == plan.selected,
        plan.settled(Fetched::File(file, Ok(name)), now).budget == plan.budget,
        plan.settled(Fetched::File(file, Ok(name)), now).capacity == plan.capacity,
{
}

/// The files as they are read.
pub open spec fn contents(files: Seq<Vec<u8>>) -> Seq<Seq<u8>> {
    files.map_values(|file: Vec<u8>| file@)
}

/// The planning of one run.
#[derive(Debug)]
pub struct Planner {
    queue: Vec<TorrentInfo>,
    next: usize,
    planned: Vec<TorrentInfo>,
    files: Vec<Vec<u8>>,
    rough: usize,
    duplicates: usize,
    skipped: usize,
    start_capacity: u64,
    start_budget: u64,
    capacity: u64,
    budget: u64,
    selected: Vec<QbTorrent>,
    reclaimed: u64,
    pool: Vec<QbTorrent>,
    auto_rotate: bool,
    max_remove: usize,
    names: Vec<String>,
    log: Vec<String>,
}

impl View for Planner {
    type V = PlanView;

    closed spec fn view(&self) -> PlanView {
        PlanView {
            queue: self.queue@,
            next: self.next as nat,
            planned: self.planned@,
            files: contents(self.files@),
            rough: self.rough as nat,
            duplicates: self.duplicates as nat,
            skipped: self.skipped as nat,
            start_capacity: self.start_capacity as nat,
            start_budget: self.start_budget as nat,
            capacity: self.capacity as nat,
            budget: self.budget as nat,
            selected: self.selected@,
            reclaimed: self.reclaimed as nat,
            pool: self.pool@,
            auto_rotate: self.auto_rotate,
            max_remove: self.max_remove as nat,
            names: config::texts(self.names@),
            log: config::texts(self.log@),
        }
    }
}

/// What the planning came to.
#[derive(Debug)]
pub struct Outcome {
    pub planned: Vec<TorrentInfo>,
    pub files: Vec<Vec<u8>>,
    pub rough_planned_count: usize,
    pub duplicate_skip_count: usize,
    pub skipped_count: usize,
    pub cleanup_pool: Vec<QbTorrent>,
    pub cleanup_selected: Vec<QbTorrent>,
    pub cleanup_reclaimed_bytes: u64,
    pub log: Vec<String>,
}

impl Outcome {
    pub open spec fn is_of(self, plan: PlanView) -> bool {
        &&& self.planned@ == plan.planned
        &&& contents(self.files@) == plan.files
        &&& self.rough_planned_count == plan.rough
        &&& self.duplicate_skip_count == plan.duplicates
        &&& self.skipped_count == plan.skipped
        &&& self.cleanup_pool@ == plan.pool
        &&& self.cleanup_selected@ == plan.selected
        &&& self.cleanup_reclaimed_bytes == plan.reclaimed
        &&& config::texts(self.log@) == plan.log
    }
}

/// Whether a torrent of that hash is among others.
fn has_hash(torrents: &Vec<QbTorrent>, hash: &str) -> (r: bool)
    ensures
        r == hashes(torrents@).contains(hash@),
{
    let ghost all = hashes(torrents@);
    let mut i: usize = 0;
    while i < torrents.len()
        invariant
            i <= torrents@.len(),
            all == hashes(torrents@),
            forall|j: int| 0 <= j < i ==> #[trigger] all[j] != hash@,
        decreases torrents@.len() - i,
    {
        assert(all[i as int] == torrents@[i as int].hash@);
        if text::same_text(torrents[i].hash.as_str(), hash) {
            return true;
        }
        i = i + 1;
    }
    false
}

/// The state before the first torrent.
pub open spec fn opening(
    queue: Seq<TorrentInfo>,
    capacity: nat,
    budget: nat,
    pool: Seq<QbTorrent>,
    auto_rotate: bool,
    max_remove: nat,
    names: Seq<Seq<char>>,
) -> PlanView {
    PlanView {
        queue,
        next: 0,
        planned: Seq::empty(),
        files: Seq::empty(),
        rough: 0,
        duplicates: 0,
        skipped: 0,
        start_capacity: capacity,
        start_budget: budget,
        capacity,
        budget,
        selected: Seq::empty(),
        reclaimed: 0,
        pool,
        auto_rotate,
        max_remove,
        names,
        log: Seq::empty(),
    }
}

impl Planner {
    /// Starts the planning, with a capacity for storing and a budget for downloading.
    pub fn new(
        queue: Vec<TorrentInfo>,
        capacity: u64,
        budget: u64,
        pool: Vec<QbTorrent>,
        auto_rotate: bool,
        max_remove: usize,
        names: Vec<String>,
    ) -> (r: Self)
        ensures
            r@ == opening(
                queue@,
                capacity as nat,
                budget as nat,
                pool@,
                auto_rotate,
                max_remove as nat,
                config::texts(names@),
            ),
            r@.wf(),
    {
        let r = Planner {
            queue,
            next: 0,
            planned: Vec::new(),
            files: Vec::new(),
            rough: 0,
            duplicates: 0,
            skipped: 0,
            start_capacity: capacity,
            start_budget: budget,
            capacity,
            budget,
            selected: Vec::new(),
            reclaimed: 0,
            pool,
            auto_rotate,
            max_remove,
            names,
            log: Vec::new(),
        };
        assert(r@ =~= opening(
            queue@,
            capacity as nat,
            budget as nat,
            pool@,
            auto_rotate,
            max_remove as nat,
            config::texts(names@),
        ));
        r
    }

    /// Adds a line to the log.
    fn write(&mut self, line: String)
        ensures
            final(self)@ == old(self)@.logged(line@),
    {
        let ghost before = config::texts(self.log@);
        self.log.push(line);
        assert(config::texts(self.log@) =~= before.push(line@));
        assert(self@ =~= old(self)@.logged(line@));
    }

    /// Leaves the torrent out.
    fn leave_out(&mut self, line: String)
        requires
            old(self)@.next < old(self)@.queue.len(),
            old(self)@.skipped <= old(self)@.next,
        ensures
            final(self)@ == old(self)@.left_out(line@),
    {
        let length: usize = self.queue.len();
        self.write(line);
        self.skipped = self.skipped + 1;
        self.next = self.next + 1;
        assert(self@ =~= old(self)@.left_out(line@));
    }

    /// Looks at the next torrent.
    pub fn step(&mut self) -> (r: Step)
        requires
            old(self)@.wf(),
        ensures
            final(self)@ == old(self)@.examined(),
            final(self)@.wf(),
            old(self)@.same_terms(final(self)@),
            match r {
                Step::Done => old(self)@.next == old(self)@.queue.len(),
                Step::Fetch(seed_id) => old(self)@.wants_file() && seed_id@
                    == old(self)@.current().seed_id@,
                Step::Skipped => old(self)@.next < old(self)@.queue.len()
                    && !old(self)@.wants_file(),
            },
    {
        if self.next >= self.queue.len() {
            return Step::Done;
        }
        match self.queue[self.next].size_bytes {
            None => {
                let line = lines::size_missing_line(&self.queue[self.next]);
                self.leave_out(line);
                Step::Skipped
            },
            Some(size) => {
                if size > self.budget {
                    let line = lines::over_budget_line(&self.queue[self.next], self.budget);
                    self.leave_out(line);
                    Step::Skipped
                } else {
                    Step::Fetch(self.queue[self.next].seed_id.clone())
                }
            },
        }
    }

    /// The torrents that may still be removed.
    fn still_available(&self) -> (r: Vec<QbTorrent>)
        ensures
            r@ == self@.available(),
    {
        let ghost wanted = |torrent: QbTorrent| !hashes(self@.selected).contains(torrent.hash@);
        let mut available: Vec<QbTorrent> = Vec::new();
        let mut i: usize = 0;
        proof {
            reveal(Seq::filter);
        }
        assert(available@ =~= self.pool@.take(0).filter(wanted));
        while i < self.pool.len()
            invariant
                i <= self.pool@.len(),
                wanted == (|torrent: QbTorrent| !hashes(self@.selected).contains(torrent.hash@)),
                available@ == self.pool@.take(i as int).filter(wanted),
            decreases self.pool@.len() - i,
        {
            proof {
                reveal(Seq::filter);
                assert(self.pool@.take(i + 1).drop_last() =~= self.pool@.take(i as int));
            }
            let torrent = &self.pool[i];
            if !has_hash(&self.selected, torrent.hash.as_str()) {
                available.push(torrent.clone());
            }
            i = i + 1;
        }
        assert(self.pool@.take(self.pool@.len() as int) =~= self.pool@);
        available
    }

    /// Selects a torrent for removal.
    fn remove(&mut self, torrent: &QbTorrent, now: i64)
        ensures
            final(self)@ == old(self)@.with_removal(*torrent, now as int),
    {
        if !has_hash(&self.selected, torrent.hash.as_str()) {
            let line = lines::removal_planned_line(torrent, now);
            self.write(line);
            self.reclaimed = self.reclaimed.saturating_add(torrent.total_size);
            self.capacity = self.capacity.saturating_add(torrent.total_size);
            self.selected.push(torrent.clone());
            assert(self@ =~= old(self)@.with_removal(*torrent, now as int));
        }
    }

    /// Selects torrents for removal.
    fn remove_all(&mut self, torrents: &Vec<QbTorrent>, now: i64)
        ensures
            final(self)@ == old(self)@.with_removals(torrents@, now as int),
    {
        let ghost start = self@;
        let mut i: usize = 0;
        assert(torrents@.take(0) =~= Seq::<QbTorrent>::empty());
        while i < torrents.len()
            invariant
                i <= torrents@.len(),
                self@ == start.with_removals(torrents@.take(i as int), now as int),
            decreases torrents@.len() - i,
        {
            assert(torrents@.take(i + 1).drop_last() =~= torrents@.take(i as int));
            self.remove(&torrents[i], now);
            i = i + 1;
        }
        assert(torrents@.take(torrents@.len() as int) =~= torrents@);
    }

    /// Takes the torrent where there is room.
    fn conclude(&mut self, file: Vec<u8>, size: u64)
        requires
            old(self)@.wants_file(),
            old(self)@.size() == size,
            old(self)@.skipped <= old(self)@.next,
        ensures
            final(self)@ == old(self)@.concluded(file@),
    {
        let length: usize = self.queue.len();
        if size > self.capacity {
            let line = lines::no_room_line(&self.queue[self.next], size, self.capacity);
            self.leave_out(line);
        } else {
            let ghost before = contents(self.files@);
            self.planned.push(self.queue[self.next].clone());
            self.files.push(file);
            assert(contents(self.files@) =~= before.push(file@));
            self.capacity = self.capacity - size;
            self.budget = self.budget - size;
            self.next = self.next + 1;
            assert(self@ =~= old(self)@.taken(file@));
        }
    }

    /// Makes room for the torrent where it lacks some.
    fn place(&mut self, file: Vec<u8>, size: u64, now: i64)
        requires
            old(self)@.wants_file(),
            old(self)@.size() == size,
            old(self)@.fits(),
            old(self)@.removes_properly(),
            old(self)@.skipped <= old(self)@.next,
        ensures
            final(self)@ == old(self)@.placed(file@, now as int),
    {
        if size <= self.capacity {
            self.conclude(file, size);
            return;
        }
        let required: u64 = size - self.capacity;
        if !self.auto_rotate {
            let line = lines::rotation_off_line(&self.queue[self.next], required);
            self.leave_out(line);
            return;
        }
        let available = self.still_available();
        let most: usize = self.max_remove - self.selected.len();
        let plan = rotation::build_cleanup_plan(available.as_slice(), required, most);
        if plan.reclaimed_bytes < required {
            let missing: u64 = required - plan.reclaimed_bytes;
            let line = lines::still_short_line(&self.queue[self.next], missing);
            self.leave_out(line);
            return;
        }
        proof {
            lemma_removal(self@);
            lemma_with_removals(self@, self@.removal(), now as int);
        }
        self.remove_all(&plan.selected, now);
        self.conclude(file, size);
    }

    /// Counts the torrent as new.
    fn count_new(&mut self)
        requires
            old(self)@.next < old(self)@.queue.len(),
            old(self)@.rough <= old(self)@.next,
        ensures
            final(self)@ == old(self)@.as_new(),
    {
        let length: usize = self.queue.len();
        self.rough = self.rough + 1;
        assert(self@ =~= old(self)@.as_new());
    }

    /// Goes on with what came of fetching the file of the torrent.
    pub fn settle(&mut self, fetched: Fetched, now: i64)
        requires
            old(self)@.wf(),
            old(self)@.wants_file(),
        ensures
            final(self)@ == old(self)@.settled(fetched, now as int),
            final(self)@.wf(),
            old(self)@.same_terms(final(self)@),
    {
        proof {
            law_settling_keeps_order(self@, fetched, now as int);
        }
        let size: u64 = match self.queue[self.next].size_bytes {
            Some(size) => size,
            None => 0,
        };
        match fetched {
            Fetched::Failed(cause) => {
                let line = lines::download_failed_line(&self.queue[self.next], cause.as_str());
                self.leave_out(line);
            },
            Fetched::File(file, Ok(name)) => {
                if qb_client::is_among(name.as_str(), self.names.as_slice()) {
                    let line = lines::duplicate_line(&self.queue[self.next], name.as_str());
                    let length: usize = self.queue.len();
                    self.write(line);
                    self.duplicates = self.duplicates + 1;
                    self.next = self.next + 1;
                    assert(self@ =~= old(self)@.settled(fetched, now as int));
                } else {
                    self.count_new();
                    self.place(file, size, now);
                }
            },
            Fetched::File(file, Err(error)) => {
                let line = lines::unnamed_line(&self.queue[self.next], error.message());
                self.write(line);
                self.count_new();
                self.place(file, size, now);
            },
        }
    }

    /// Hands out what the planning came to.
    pub fn into_outcome(self) -> (r: Outcome)
        ensures
            r.is_of(self@),
    {
        Outcome {
            planned: self.planned,
            files: self.files,
            rough_planned_count: self.rough,
            duplicate_skip_count: self.duplicates,
            skipped_count: self.skipped,
            cleanup_pool: self.pool,
            cleanup_selected: self.selected,
            cleanup_reclaimed_bytes: self.reclaimed,
            log: self.log,
        }
    }

    /// Hands the lines out that were logged so far, and forgets them.
    pub fn take_log(&mut self) -> (r: Vec<String>)
        ensures
            config::texts(r@) == old(self)@.log,
            final(self)@ == (PlanView { log: Seq::empty(), ..old(self)@ }),
    {
        let mut log: Vec<String> = Vec::new();
        std::mem::swap(&mut log, &mut self.log);
        assert(self@ =~= (PlanView { log: Seq::empty(), ..old(self)@ }));
        log
    }
}

} // verus!
