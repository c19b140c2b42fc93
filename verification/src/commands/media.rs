//! What the media commands are asked for, and what they add up.

use crate::kakao::media::{
    count_of, kind_name, kind_named, MediaKind, MediaRecord, MediaReport, MediaTier, TierCounts,
};
use crate::text::ascii_lower_seq;
use crate::text::split::views;
use crate::text::trim::trim;
use vstd::prelude::*;

verus! {

/// The kinds without repetitions, the first of each kept.
pub open spec fn distinct_kinds(kinds: Seq<MediaKind>) -> Seq<MediaKind>
    decreases kinds.len(),
{
    if kinds.len() == 0 {
        seq![]
    } else {
        let front = distinct_kinds(kinds.drop_last());
        if front.contains(kinds.last()) {
            front
        } else {
            front.push(kinds.last())
        }
    }
}

/// The kinds that the words name.
pub open spec fn named_kinds(words: Seq<Seq<char>>) -> Seq<MediaKind> {
    words.map_values(|word: Seq<char>| kind_named(word)->0)
}

/// The first word, from `from` on, that names no kind, or the length.
pub open spec fn first_unknown(words: Seq<Seq<char>>, from: int) -> int
    decreases words.len() - from,
{
    if from >= words.len() {
        words.len() as int
    } else if kind_named(words[from]) is None {
        from
    } else {
        first_unknown(words, from + 1)
    }
}

/// Whether `kinds` holds `kind`.
fn holds_kind(kinds: &[MediaKind], kind: MediaKind) -> (r: bool)
    ensures
        r == kinds@.contains(kind),
{
    for i in 0..kinds.len()
        invariant
            forall|j: int| 0 <= j < i ==> kinds@[j] != kind,
    {
        if kinds[i] == kind {
            return true;
        }
    }
    false
}

/// The kinds that are asked for: those that the words name, each once, or the
/// usual ones where there is no word. The first word that names none is refused.
pub fn parse_kinds(raw: &[String], default: &[MediaKind]) -> (r: Result<Vec<MediaKind>, String>)
    ensures
        match r {
            Ok(kinds) => first_unknown(views(raw@), 0) == raw@.len() && kinds@ == if raw@.len()
                == 0 {
                default@
            } else {
                distinct_kinds(named_kinds(views(raw@)))
            },
            Err(reason) => {
                let at = first_unknown(views(raw@), 0);
                at < raw@.len() && reason@ == "unknown media kind '"@ + ascii_lower_seq(
                    trim(raw@[at]@),
                ) + "'; use photo, video, or file"@
            },
        },
{
    let mut kinds: Vec<MediaKind> = Vec::new();
    if raw.len() == 0 {
        for i in 0..default.len()
            invariant
                kinds@ == default@.take(i as int),
        {
            kinds.push(default[i]);
        }
        proof {
            assert(default@.take(default@.len() as int) == default@);
        }
        return Ok(kinds);
    }
    let ghost words = views(raw@);
    let ghost named = named_kinds(words);
    proof {
        assert(kinds@ == distinct_kinds(named.take(0)));
    }
    for i in 0..raw.len()
        invariant
            words == views(raw@),
            named == named_kinds(words),
            first_unknown(words, 0) == first_unknown(words, i as int),
            kinds@ == distinct_kinds(named.take(i as int)),
    {
        proof {
            assert(words[i as int] == raw@[i as int]@);
            assert(named.take(i + 1).drop_last() == named.take(i as int));
        }
        match MediaKind::parse(raw[i].as_str()) {
            Err(reason) => {
                return Err(reason);
            },
            Ok(kind) => {
                proof {
                    assert(named.take(i + 1).last() == kind);
                }
                if !holds_kind(kinds.as_slice(), kind) {
                    kinds.push(kind);
                }
            },
        }
    }
    proof {
        assert(named.take(raw@.len() as int) == named);
    }
    Ok(kinds)
}

/// The names of kinds, in order.
pub fn kind_names(kinds: &[MediaKind]) -> (names: Vec<&'static str>)
    ensures
        names@.len() == kinds@.len(),
        forall|i: int| 0 <= i < names@.len() ==> (#[trigger] names@[i])@ == kind_name(kinds@[i]),
{
    let mut names: Vec<&'static str> = Vec::new();
    for i in 0..kinds.len()
        invariant
            names@.len() == i,
            forall|j: int| 0 <= j < i ==> (#[trigger] names@[j])@ == kind_name(kinds@[j]),
    {
        names.push(kinds[i].as_str());
    }
    names
}

/// What a record adds to the bytes that were fetched, or would be.
pub open spec fn fetched_bytes(record: MediaRecord) -> int {
    if record.tier == MediaTier::Cdn || record.tier == MediaTier::Planned {
        match record.size_bytes {
            Some(size) => size as int,
            None => 0,
        }
    } else {
        0
    }
}

/// The bytes that were fetched, or would be.
pub open spec fn bytes_of(records: Seq<MediaRecord>) -> int
    decreases records.len(),
{
    if records.len() == 0 {
        0
    } else {
        bytes_of(records.drop_last()) + fetched_bytes(records.last())
    }
}

/// The bytes that were fetched for the records, or would be. In a dry run
/// nothing is fetched and what would be is planned, so one sum serves both.
pub fn saved_bytes(records: &[MediaRecord]) -> (total: i128)
    ensures
        total == bytes_of(records@),
        -0x8000_0000_0000_0000 * records@.len() <= total <= 0x7fff_ffff_ffff_ffff * records@.len(),
{
    let mut total: i128 = 0;
    for i in 0..records.len()
        invariant
            total == bytes_of(records@.take(i as int)),
            -0x8000_0000_0000_0000 * i <= total <= 0x7fff_ffff_ffff_ffff * i,
    {
        proof {
            assert(records@.take(i + 1).drop_last() == records@.take(i as int));
        }
        let record = &records[i];
        if record.tier == MediaTier::Cdn || record.tier == MediaTier::Planned {
            if let Some(size) = record.size_bytes {
                total = total + size as i128;
            }
        }
    }
    proof {
        assert(records@.take(records@.len() as int) == records@);
    }
    total
}

/// What a run over many rooms adds up.
#[derive(Debug, Clone, Copy, PartialEq, Eq, Structural)]
pub struct BackfillTotals {
    pub tiers: TierCounts,
    pub bytes: i64,
}

/// Whether the totals with one more room can be counted by the machine.
pub open spec fn countable(totals: BackfillTotals, report: MediaReport) -> bool {
    &&& forall|tier: MediaTier| #[trigger]
        count_of(totals.tiers, tier) + count_of(report.tier_counts, tier) <= usize::MAX
    &&& i64::MIN <= totals.bytes + bytes_of(report.records@) <= i64::MAX
}

/// The totals before the first room.
pub fn no_totals() -> (totals: BackfillTotals)
    ensures
        forall|tier: MediaTier| #[trigger] count_of(totals.tiers, tier) == 0,
        totals.bytes == 0,
{
    BackfillTotals {
        tiers: TierCounts { full: 0, cdn: 0, thumb: 0, stub: 0, existing: 0, planned: 0 },
        bytes: 0,
    }
}

/// The totals with one more room; nothing where they cannot be counted.
pub fn add_room(totals: BackfillTotals, report: &MediaReport) -> (r: Option<BackfillTotals>)
    ensures
        match r {
            Some(sum) => (forall|tier: MediaTier| #[trigger]
                count_of(sum.tiers, tier) == count_of(totals.tiers, tier) + count_of(
                    report.tier_counts,
                    tier,
                )) && sum.bytes == totals.bytes + bytes_of(report.records@),
            None => !countable(totals, *report),
        },
{
    let a = totals.tiers;
    let b = report.tier_counts;
    let count: usize = report.records.len();
    let room: i128 = saved_bytes(report.records.as_slice());
    assert(count <= 0xffff_ffff_ffff_ffff);
    let total: i128 = totals.bytes as i128 + room;
    proof {
        assert(count_of(a, MediaTier::Full) == a.full && count_of(b, MediaTier::Full) == b.full);
        assert(count_of(a, MediaTier::Cdn) == a.cdn && count_of(b, MediaTier::Cdn) == b.cdn);
        assert(count_of(a, MediaTier::Thumb) == a.thumb && count_of(b, MediaTier::Thumb)
            == b.thumb);
        assert(count_of(a, MediaTier::Stub) == a.stub && count_of(b, MediaTier::Stub) == b.stub);
        assert(count_of(a, MediaTier::Existing) == a.existing && count_of(b, MediaTier::Existing)
            == b.existing);
        assert(count_of(a, MediaTier::Planned) == a.planned && count_of(b, MediaTier::Planned)
            == b.planned);
    }
    if total < i64::MIN as i128 || total > i64::MAX as i128 {
        return None;
    }
    let full: usize = a.full.checked_add(b.full)?;
    let cdn: usize = a.cdn.checked_add(b.cdn)?;
    let thumb: usize = a.thumb.checked_add(b.thumb)?;
    let stub: usize = a.stub.checked_add(b.stub)?;
    let existing: usize = a.existing.checked_add(b.existing)?;
    let planned: usize = a.planned.checked_add(b.planned)?;
    Some(
        BackfillTotals {
            tiers: TierCounts { full, cdn, thumb, stub, existing, planned },
            bytes: total as i64,
        },
    )
}

/// Each kind that is asked for is kept once, in the order of its first word.
pub proof fn law_kinds_are_kept_once(kinds: Seq<MediaKind>)
    ensures
        distinct_kinds(kinds).no_duplicates(),
        forall|kind: MediaKind|
            #[trigger] distinct_kinds(kinds).contains(kind) <==> kinds.contains(kind),
    decreases kinds.len(),
{
    if kinds.len() > 0 {
        let front = kinds.drop_last();
        law_kinds_are_kept_once(front);
        let kept = distinct_kinds(front);
        let all = distinct_kinds(kinds);
        assert forall|kind: MediaKind| #[trigger] all.contains(kind) <==> kinds.contains(kind) by {
            if kinds.contains(kind) {
                let i = choose|i: int| 0 <= i < kinds.len() && kinds[i] == kind;
                if i < front.len() {
                    assert(front[i] == kind);
                    assert(kept.contains(kind));
                    let k = choose|k: int| 0 <= k < kept.len() && kept[k] == kind;
                    assert(all[k] == kind);
                } else if !kept.contains(kind) {
                    assert(all[all.len() - 1] == kind);
                }
            }
            if all.contains(kind) {
                let k = choose|k: int| 0 <= k < all.len() && all[k] == kind;
                if k < kept.len() {
                    assert(kept[k] == kind);
                    assert(kept.contains(kind));
                    assert(front.contains(kind));
                    let i = choose|i: int| 0 <= i < front.len() && front[i] == kind;
                    assert(kinds[i] == kind);
                } else {
                    assert(kinds[kinds.len() - 1] == kind);
                }
            }
        }
    }
}

/// The bytes of a run are those of the records that were fetched, or would be:
/// each adds its size where it is known, and any other adds nothing.
pub proof fn law_fetched_bytes_add_up(records: Seq<MediaRecord>, record: MediaRecord)
    ensures
        bytes_of(records.push(record)) == bytes_of(records) + match (record.tier, record.size_bytes) {
            (MediaTier::Cdn, Some(size)) => size as int,
            (MediaTier::Planned, Some(size)) => size as int,
            _ => 0,
        },
        bytes_of(seq![]) == 0,
{
    assert(records.push(record).drop_last() =~= records);
}

/// The first word that names no kind is the one that is refused.
pub proof fn law_the_first_unknown_word_is_refused(words: Seq<Seq<char>>, from: int)
    requires
        0 <= from <= words.len(),
    ensures
        from <= first_unknown(words, from) <= words.len(),
        first_unknown(words, from) < words.len() ==> kind_named(words[first_unknown(words, from)])
            is None,
        forall|i: int|
            from <= i < first_unknown(words, from) ==> kind_named(#[trigger] words[i]) is Some,
    decreases words.len() - from,
{
    if from < words.len() && kind_named(words[from]) is Some {
        law_the_first_unknown_word_is_refused(words, from + 1);
    }
}

/// The kinds come in the order in which they are first named.
pub proof fn law_kinds_come_in_order(kinds: Seq<MediaKind>, kind: MediaKind)
    ensures
        kinds.contains(kind) ==> distinct_kinds(kinds.push(kind)) == distinct_kinds(kinds),
        !kinds.contains(kind) ==> distinct_kinds(kinds.push(kind)) == distinct_kinds(kinds).push(
            kind,
        ),
        distinct_kinds(seq![]).len() == 0,
{
    assert(kinds.push(kind).drop_last() =~= kinds);
    law_kinds_are_kept_once(kinds);
}

} // verus!
