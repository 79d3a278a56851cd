//! How large the log can grow: the bytes of a log by kind, what the counter
//! of stale bytes counts exactly, and the bound that compaction keeps.

use vstd::prelude::*;
use crate::log::{
    capped, dead_bytes, dead_prefix, is_live, last_mention, lemma_compaction_keeps_one_each,
    laid_out, lemma_dead_prefix_push, lemma_engine_is_a_map, lemma_index_points_to_latest,
    lemma_last_mention, lemma_last_mention_push, lemma_replay_push, live, log_after,
    records_of, rewritten, state_after, DBInsertion, Insertion, ItemPosition, LogEntry,
    Operation, StoreState, COMPACTION_THRESHOLD,
};

verus! {

/// The bytes of the first `n` entries of a log.
pub open spec fn bytes_prefix(entries: Seq<LogEntry>, n: int) -> nat
    decreases n,
{
    if n <= 0 {
        0
    } else {
        bytes_prefix(entries, n - 1) + entries[n - 1].position.len as nat
    }
}

/// The length of a log: the bytes of all its records, which lie in the file
/// with nothing between them.
pub open spec fn log_bytes(entries: Seq<LogEntry>) -> nat {
    bytes_prefix(entries, entries.len() as int)
}

/// The bytes of the `Rm` records among the first `n` entries of a log.
pub open spec fn removal_prefix(entries: Seq<LogEntry>, n: int) -> nat
    decreases n,
{
    if n <= 0 {
        0
    } else if entries[n - 1].insertion is Rm {
        removal_prefix(entries, n - 1) + entries[n - 1].position.len as nat
    } else {
        removal_prefix(entries, n - 1)
    }
}

/// The bytes of the `Rm` records of a log.
pub open spec fn removal_bytes(entries: Seq<LogEntry>) -> nat {
    removal_prefix(entries, entries.len() as int)
}

/// The bytes of the live records of a log: what is left of the log without
/// its dead bytes.
pub open spec fn live_bytes(entries: Seq<LogEntry>) -> int {
    log_bytes(entries) - dead_bytes(entries)
}

/// The bytes of the superseded `Put` records of a log: the dead bytes that
/// are not those of `Rm` records.
pub open spec fn superseded_bytes(entries: Seq<LogEntry>) -> int {
    dead_bytes(entries) - removal_bytes(entries)
}

/// The bytes that one more record about `key` makes dead: the length of the
/// live record of the key, if there is one.
pub open spec fn freed_by(entries: Seq<LogEntry>, key: Seq<char>) -> nat {
    let at = last_mention(records_of(entries), key);
    if at >= 0 && entries[at].insertion is Put {
        entries[at].position.len as nat
    } else {
        0
    }
}

/// One more entry leaves the sums over the entries before it as they were.
proof fn lemma_prefix_push(entries: Seq<LogEntry>, entry: LogEntry, n: int)
    requires
        0 <= n <= entries.len(),
    ensures
        bytes_prefix(entries.push(entry), n) == bytes_prefix(entries, n),
        removal_prefix(entries.push(entry), n) == removal_prefix(entries, n),
    decreases n,
{
    if n > 0 {
        lemma_prefix_push(entries, entry, n - 1);
        assert(entries.push(entry)[n - 1] == entries[n - 1]);
    }
}

/// What one more entry does to the bytes of a log, kind by kind: the log
/// grows by the entry, an `Rm` record adds its own length to the removal
/// bytes, and the dead bytes grow by the record the entry supersedes and by
/// the entry itself where it is an `Rm`.
pub proof fn lemma_bytes_push(entries: Seq<LogEntry>, entry: LogEntry)
    ensures
        log_bytes(entries.push(entry)) == log_bytes(entries) + entry.position.len,
        removal_bytes(entries.push(entry)) == removal_bytes(entries) + if entry.insertion is Rm {
            entry.position.len as nat
        } else {
            0
        },
        dead_bytes(entries.push(entry)) == dead_bytes(entries) + freed_by(
            entries,
            entry.insertion.key(),
        ) + if entry.insertion is Rm {
            entry.position.len as nat
        } else {
            0
        },
{
    let n = entries.len() as int;
    let longer = entries.push(entry);
    lemma_prefix_push(entries, entry, n);
    lemma_dead_prefix_push(entries, entry, n);
    lemma_last_mention(records_of(entries), entry.insertion.key());
    lemma_last_mention_push(records_of(entries), entry.insertion, entry.insertion.key());
    assert(records_of(longer) == records_of(entries).push(entry.insertion));
    assert(longer[n] == entry);
}

/// Records that lie end to end from the start of the file fill it: each
/// record ends at the offset that the bytes up to it add up to.
proof fn lemma_laid_out_prefix(
    entries: Seq<LogEntry>,
    records: Seq<(DBInsertion, usize)>,
    n: int,
)
    requires
        laid_out(entries, records, 0),
        0 < n <= entries.len(),
    ensures
        bytes_prefix(entries, n) == records[n - 1].1,
    decreases n,
{
    if n > 1 {
        lemma_laid_out_prefix(entries, records, n - 1);
    } else {
        assert(bytes_prefix(entries, 0) == 0);
    }
    assert(entries[n - 1].position.pos + entries[n - 1].position.len == records[n - 1].1);
}

/// The length of the file is the length of the log: where the records lie
/// end to end from the start of the file, the last of them ends at
/// [`log_bytes`].
pub proof fn lemma_file_length_is_log_bytes(
    entries: Seq<LogEntry>,
    records: Seq<(DBInsertion, usize)>,
)
    requires
        laid_out(entries, records, 0),
        entries.len() > 0,
    ensures
        records.last().1 == log_bytes(entries),
{
    lemma_laid_out_prefix(entries, records, entries.len() as int);
}

/// The counter counts the superseded records exactly. After any sequence of
/// entries it holds the bytes of the `Put` records that are no longer live,
/// as far as 64 bits can hold them.
pub proof fn lemma_stale_counts_superseded(entries: Seq<LogEntry>)
    ensures
        superseded_bytes(entries) >= 0,
        StoreState::empty().replay(entries).stale == capped(superseded_bytes(entries) as nat),
    decreases entries.len(),
{
    if entries.len() > 0 {
        let before = entries.drop_last();
        let entry = entries.last();
        assert(entries == before.push(entry));
        lemma_stale_counts_superseded(before);
        lemma_replay_push(StoreState::empty(), before, entry);
        lemma_index_points_to_latest(before, entry.insertion.key());
        lemma_last_mention(records_of(before), entry.insertion.key());
        lemma_bytes_push(before, entry);
    }
}

/// A live record is part of the live bytes: among the first `n` entries the
/// dead bytes are no more than all bytes, and what is left holds every live
/// record among them.
proof fn lemma_live_prefix_holds(entries: Seq<LogEntry>, n: int, i: int)
    requires
        0 <= n <= entries.len(),
    ensures
        dead_prefix(entries, n) <= bytes_prefix(entries, n),
        0 <= i < n && is_live(records_of(entries), i) ==> dead_prefix(entries, n)
            + entries[i].position.len <= bytes_prefix(entries, n),
    decreases n,
{
    if n > 0 {
        lemma_live_prefix_holds(entries, n - 1, i);
    }
}

/// No live record is longer than the live bytes of its log.
pub proof fn lemma_live_record_fits(entries: Seq<LogEntry>, i: int)
    requires
        is_live(records_of(entries), i),
    ensures
        entries[i].position.len <= live_bytes(entries),
        0 <= live_bytes(entries),
{
    lemma_live_prefix_holds(entries, entries.len() as int, i);
}

/// The sums over a log in which every record is live.
proof fn lemma_all_live_prefix(entries: Seq<LogEntry>, n: int)
    requires
        0 <= n <= entries.len(),
        forall|j: int| 0 <= j < entries.len() ==> is_live(records_of(entries), j),
    ensures
        dead_prefix(entries, n) == 0,
        removal_prefix(entries, n) == 0,
    decreases n,
{
    if n > 0 {
        lemma_all_live_prefix(entries, n - 1);
        assert(is_live(records_of(entries), n - 1));
        assert(records_of(entries)[n - 1] == entries[n - 1].insertion);
    }
}

/// A compacted log has no dead byte: every record that compaction writes
/// is live in the log it writes.
pub proof fn lemma_rewritten_is_all_live(records: Seq<Insertion>, places: Seq<ItemPosition>)
    ensures
        dead_bytes(rewritten(live(records), places)) == 0,
        removal_bytes(rewritten(live(records), places)) == 0,
{
    let kept = live(records);
    let again = rewritten(kept, places);
    assert(records_of(again) == kept);
    assert forall|j: int| 0 <= j < again.len() implies is_live(records_of(again), j) by {
        lemma_last_mention(kept, kept[j].key());
        let at = last_mention(kept, kept[j].key());
        lemma_compaction_keeps_one_each(records, j, at);
    }
    lemma_all_live_prefix(again, again.len() as int);
}

/// A compaction leaves nothing dead behind: right after it the counter is
/// 0 and every byte of the log is a live byte.
pub proof fn lemma_compaction_resets(operations: Seq<Operation>, places: Seq<ItemPosition>)
    ensures
        state_after(operations.push(Operation::Compact { places })).stale == 0,
        dead_bytes(log_after(operations.push(Operation::Compact { places }))) == 0,
        log_bytes(log_after(operations.push(Operation::Compact { places }))) == live_bytes(
            log_after(operations.push(Operation::Compact { places })),
        ),
{
    let longer = operations.push(Operation::Compact { places });
    assert(longer.drop_last() == operations);
    lemma_engine_is_a_map(longer, Seq::empty());
    lemma_stale_counts_superseded(log_after(longer));
    lemma_rewritten_is_all_live(records_of(log_after(operations)), places);
}

/// In the form records are written in, with `len_of` the length of each
/// record, a record that removes a key is never longer than a record that
/// binds the same key.
pub open spec fn removals_are_short(len_of: spec_fn(Insertion) -> nat) -> bool {
    forall|key: Seq<char>, value: Seq<char>|
        len_of(Insertion::Rm { key }) <= #[trigger] len_of(Insertion::Put { key, value })
}

/// One step keeps to the rules of the engine: every record takes the length
/// its form gives it, in a compaction too, and a `set` finds the counter at
/// or below the threshold, since the engine compacts first where it is
/// above.
pub open spec fn step_keeps_rules(
    earlier: Seq<Operation>,
    step: Operation,
    len_of: spec_fn(Insertion) -> nat,
) -> bool {
    match step {
        Operation::Write { key, value, position } => {
            &&& position.len == len_of(Insertion::Put { key, value })
            &&& state_after(earlier).stale <= COMPACTION_THRESHOLD
        },
        Operation::Remove { key, position } => position.len == len_of(Insertion::Rm { key }),
        Operation::Compact { places } => forall|j: int|
            0 <= j < live(records_of(log_after(earlier))).len() ==> (#[trigger] places[j]).len
                == len_of(live(records_of(log_after(earlier)))[j]),
    }
}

/// Every step of the run keeps to the rules of the engine.
pub open spec fn run_keeps_rules(
    operations: Seq<Operation>,
    len_of: spec_fn(Insertion) -> nat,
) -> bool {
    forall|i: int|
        0 <= i < operations.len() ==> step_keeps_rules(
            #[trigger] operations.take(i),
            operations[i],
            len_of,
        )
}

/// What holds of the log all along such a run: every record has the length
/// its form gives it, and the `Rm` records take no more bytes than the
/// `Put` records they superseded.
proof fn lemma_run_keeps_removals_small(
    operations: Seq<Operation>,
    len_of: spec_fn(Insertion) -> nat,
)
    requires
        removals_are_short(len_of),
        run_keeps_rules(operations, len_of),
    ensures
        forall|j: int|
            0 <= j < log_after(operations).len() ==> (#[trigger] log_after(
                operations,
            )[j]).position.len == len_of(log_after(operations)[j].insertion),
        2 * removal_bytes(log_after(operations)) <= dead_bytes(log_after(operations)),
    decreases operations.len(),
{
    if operations.len() > 0 {
        let earlier = operations.drop_last();
        let log = log_after(earlier);
        assert forall|i: int| 0 <= i < earlier.len() implies step_keeps_rules(
            #[trigger] earlier.take(i),
            earlier[i],
            len_of,
        ) by {
            assert(earlier.take(i) == operations.take(i));
        }
        assert(operations.take(operations.len() - 1) == earlier);
        assert(step_keeps_rules(earlier, operations.last(), len_of));
        lemma_run_keeps_removals_small(earlier, len_of);
        match operations.last() {
            Operation::Write { key, value, position } => {
                let entry = LogEntry { insertion: Insertion::Put { key, value }, position };
                lemma_bytes_push(log, entry);
            },
            Operation::Remove { key, position } => {
                if state_after(earlier).index.contains_key(key) {
                    let entry = LogEntry { insertion: Insertion::Rm { key }, position };
                    lemma_engine_is_a_map(earlier, key);
                    lemma_index_points_to_latest(log, key);
                    lemma_last_mention(records_of(log), key);
                    let at = last_mention(records_of(log), key);
                    assert(records_of(log)[at] == log[at].insertion);
                    assert(log[at].insertion == Insertion::Put {
                        key,
                        value: log[at].insertion->Put_value,
                    });
                    lemma_bytes_push(log, entry);
                }
            },
            Operation::Compact { places } => {
                lemma_rewritten_is_all_live(records_of(log), places);
            },
        }
    }
}

/// The log does not grow without bound. Take a run from an empty store in
/// which the engine compacts before every `set` that finds its counter
/// above the threshold, and a form of records in which a removal is never
/// longer than a binding of the same key. Then after every `set` the log is
/// no longer than twice the live bytes it held before or holds now, plus
/// twice the threshold.
pub proof fn lemma_log_stays_bounded(
    operations: Seq<Operation>,
    len_of: spec_fn(Insertion) -> nat,
    live_most: nat,
)
    requires
        removals_are_short(len_of),
        run_keeps_rules(operations, len_of),
        operations.len() > 0,
        operations.last() is Write,
        live_bytes(log_after(operations.drop_last())) <= live_most,
        live_bytes(log_after(operations)) <= live_most,
    ensures
        log_bytes(log_after(operations)) <= 2 * (live_most + COMPACTION_THRESHOLD),
{
    let earlier = operations.drop_last();
    let log = log_after(earlier);
    assert forall|i: int| 0 <= i < earlier.len() implies step_keeps_rules(
        #[trigger] earlier.take(i),
        earlier[i],
        len_of,
    ) by {
        assert(earlier.take(i) == operations.take(i));
    }
    assert(operations.take(operations.len() - 1) == earlier);
    assert(step_keeps_rules(earlier, operations.last(), len_of));
    lemma_run_keeps_removals_small(earlier, len_of);
    lemma_engine_is_a_map(earlier, Seq::empty());
    lemma_stale_counts_superseded(log);
    match operations.last() {
        Operation::Write { key, value, position } => {
            let entry = LogEntry { insertion: Insertion::Put { key, value }, position };
            lemma_bytes_push(log, entry);
            lemma_last_mention(records_of(log), key);
            let at = last_mention(records_of(log), key);
            if at >= 0 && log[at].insertion is Put {
                assert(records_of(log)[at] == log[at].insertion);
                lemma_live_record_fits(log, at);
            }
        },
        _ => {},
    }
}

} // verus!
