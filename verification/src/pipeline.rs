//! The streaming pipeline's per-line state machine.
//!
//! A run holds an ordered list of containers (earlier containers are older
//! shards) and a writable cursor. For each line, the cursor first advances
//! past full containers; the scan then walks the containers in order, with
//! a plain check before the cursor and one combined check-and-set at the
//! cursor, where the scan ends: membership is decided by the containers at
//! or before the cursor, a hit there is authoritative, and nothing more is
//! inserted. Only without a writable cursor is every container checked. The
//! line is emitted exactly when its membership report agrees with the
//! inverse flag, and suppressed in silent mode.

use vstd::prelude::*;

use crate::container::{
    Container, ContainerModel, FilterModel, model_after_cas, model_cas_result, model_check,
    model_is_full, model_wf,
};

verus! {

/// A pipeline run: its flags and its ordered containers.
pub struct Params {
    /// Whether lines may be inserted into the containers.
    pub write_mode: bool,
    /// Emit previously seen lines instead of fresh ones.
    pub inverse: bool,
    /// Suppress all output.
    pub silent: bool,
    /// The ordered containers; earlier ones are older shards.
    pub containers: Vec<Container>,
}

impl Params {
    /// All containers are well formed.
    pub open spec fn wf(&self) -> bool {
        forall|i: int| 0 <= i < self.containers@.len() ==> (#[trigger] self.containers@[i]).wf()
    }
}

/// The models of a container list.
pub open spec fn models_of(cs: Seq<Container>) -> Seq<ContainerModel> {
    cs.map_values(|c: Container| c.model())
}

/// The cursor after skipping every full container from `c` on: the first
/// index at or past `c` whose container is not full, or the list's end.
pub open spec fn spec_advance(ms: Seq<ContainerModel>, c: int) -> int
    decreases ms.len() - c when 0 <= c <= ms.len()
{
    if c < ms.len() && model_is_full(ms[c]) {
        spec_advance(ms, c + 1)
    } else {
        c
    }
}

/// The advanced cursor never moves backwards, stops inside the list, skips
/// exactly the full prefix, and lands on a non-full container if any is left.
pub proof fn lemma_advance_props(ms: Seq<ContainerModel>, c: int)
    requires
        0 <= c <= ms.len(),
    ensures
        c <= spec_advance(ms, c) <= ms.len(),
        spec_advance(ms, c) < ms.len() ==> !model_is_full(ms[spec_advance(ms, c)]),
        forall|i: int| c <= i < spec_advance(ms, c) ==> model_is_full(#[trigger] ms[i]),
    decreases ms.len() - c,
{
    if c < ms.len() && model_is_full(ms[c]) {
        lemma_advance_props(ms, c + 1);
    }
}

/// The cursor after one line: advanced past every full container.
pub open spec fn spec_new_cursor(ms: Seq<ContainerModel>, cursor: int) -> int {
    spec_advance(ms, cursor)
}

/// Whether any container before `end` reports the line present.
pub open spec fn spec_hit_before(ms: Seq<ContainerModel>, x: Seq<u8>, end: int) -> bool {
    exists|i: int| 0 <= i < end && model_check(#[trigger] ms[i], x)
}

/// Whether the scan of one line reports it as previously seen. With a
/// writable cursor the scan ends at the cursor container: membership is a
/// check-hit in some container before the cursor, or the check-and-set
/// report of the cursor container itself; containers past the cursor are
/// not consulted. Without a writable cursor every container is checked.
pub open spec fn spec_found(ms: Seq<ContainerModel>, cursor: int, write_mode: bool, x: Seq<u8>) -> bool {
    if write_mode && spec_new_cursor(ms, cursor) < ms.len() {
        spec_hit_before(ms, x, spec_new_cursor(ms, cursor)) || model_cas_result(
            ms[spec_new_cursor(ms, cursor)],
            x,
        )
    } else {
        spec_hit_before(ms, x, ms.len() as int)
    }
}

/// The containers after one line: when writing is possible and no container
/// before the cursor reports a hit, the cursor container absorbs the line;
/// in every other case nothing changes. (A hit in an earlier container is
/// authoritative: the line is not inserted again.)
pub open spec fn spec_line_models(
    ms: Seq<ContainerModel>,
    cursor: int,
    write_mode: bool,
    x: Seq<u8>,
) -> Seq<ContainerModel> {
    let adv = spec_new_cursor(ms, cursor);
    if write_mode && adv < ms.len() && !spec_hit_before(ms, x, adv) {
        ms.update(adv, model_after_cas(ms[adv], x))
    } else {
        ms
    }
}

/// Whether one line is emitted: exactly when the scan's membership report
/// agrees with the inverse flag.
pub open spec fn spec_emit(
    ms: Seq<ContainerModel>,
    cursor: int,
    write_mode: bool,
    x: Seq<u8>,
    inverse: bool,
) -> bool {
    spec_found(ms, cursor, write_mode, x) == inverse
}

/// The containers' knowledge only ever grows: a line that some container
/// reports present keeps being reported present by that container through
/// the processing of any later line. (How that bears on emission depends on
/// where the reporting container stands relative to the cursor; the
/// single-container corollary below spells it out.)
pub proof fn lemma_hit_is_stable(
    ms: Seq<ContainerModel>,
    cursor: int,
    write_mode: bool,
    x: Seq<u8>,
    y: Seq<u8>,
    j: int,
)
    requires
        forall|i: int| 0 <= i < ms.len() ==> model_wf(#[trigger] ms[i]),
        0 <= cursor <= ms.len(),
        0 <= j < ms.len(),
        model_check(ms[j], x),
    ensures
        model_check(spec_line_models(ms, cursor, write_mode, y)[j], x),
        spec_hit_before(spec_line_models(ms, cursor, write_mode, y), x, ms.len() as int),
{
    let ms2 = spec_line_models(ms, cursor, write_mode, y);
    lemma_advance_props(ms, cursor);
    if ms2 != ms {
        let adv = spec_new_cursor(ms, cursor);
        if j == adv {
            crate::container::lemma_check_stable(ms[j], x, y);
        }
    }
    assert(model_check(ms2[j], x));
}

/// The containers after a whole sequence of lines, each processed with the
/// cursor the previous line left behind.
pub open spec fn spec_run_models(
    ms: Seq<ContainerModel>,
    cursor: int,
    write_mode: bool,
    lines: Seq<Seq<u8>>,
) -> Seq<ContainerModel>
    decreases lines.len(),
{
    if lines.len() == 0 {
        ms
    } else {
        spec_run_models(
            spec_line_models(ms, cursor, write_mode, lines[0]),
            spec_new_cursor(ms, cursor),
            write_mode,
            lines.drop_first(),
        )
    }
}

/// A whole run keeps every container well formed, keeps the list's length,
/// and never loses a membership report: a line container `j` reports
/// present stays reported present to the end of the run.
pub proof fn lemma_run_stable(
    ms: Seq<ContainerModel>,
    cursor: int,
    write_mode: bool,
    lines: Seq<Seq<u8>>,
    x: Seq<u8>,
    j: int,
)
    requires
        forall|i: int| 0 <= i < ms.len() ==> model_wf(#[trigger] ms[i]),
        0 <= cursor <= ms.len(),
        0 <= j < ms.len(),
        model_check(ms[j], x),
    ensures
        spec_run_models(ms, cursor, write_mode, lines).len() == ms.len(),
        forall|i: int|
            0 <= i < ms.len() ==> model_wf(
                #[trigger] spec_run_models(ms, cursor, write_mode, lines)[i],
            ),
        forall|i: int|
            0 <= i < ms.len() ==> (#[trigger] spec_run_models(
                ms,
                cursor,
                write_mode,
                lines,
            )[i]).construction_type == ms[i].construction_type,
        model_check(spec_run_models(ms, cursor, write_mode, lines)[j], x),
    decreases lines.len(),
{
    if lines.len() > 0 {
        let ms1 = spec_line_models(ms, cursor, write_mode, lines[0]);
        lemma_advance_props(ms, cursor);
        let adv = spec_new_cursor(ms, cursor);
        if ms1 != ms {
            crate::container::lemma_after_cas_wf(ms[adv], lines[0]);
        }
        assert(forall|i: int| 0 <= i < ms1.len() ==> model_wf(#[trigger] ms1[i]));
        assert(forall|i: int|
            0 <= i < ms1.len() ==> (#[trigger] ms1[i]).construction_type
                == ms[i].construction_type);
        lemma_hit_is_stable(ms, cursor, write_mode, x, lines[0], j);
        lemma_run_stable(ms1, adv, write_mode, lines.drop_first(), x, j);
    }
}

/// The provable core of deduplication over one Bloom container: once a line
/// has gone through a write-mode scan of a single non-full Bloom container,
/// it stays reported present through any later lines, so each of its later
/// occurrences is suppressed without the inverse flag and emitted with it.
/// (What happens to the very first occurrence is probabilistic: a false
/// positive can suppress it, so only this half is a theorem.)
pub proof fn lemma_single_bloom_dedup(
    ms: Seq<ContainerModel>,
    lines: Seq<Seq<u8>>,
    x: Seq<u8>,
    inverse: bool,
)
    requires
        ms.len() == 1,
        model_wf(ms[0]),
        ms[0].filter is Bloom,
        !model_is_full(ms[0]),
    ensures
        model_check(spec_run_models(spec_line_models(ms, 0, true, x), 0, true, lines)[0], x),
        spec_emit(
            spec_run_models(spec_line_models(ms, 0, true, x), 0, true, lines),
            0,
            true,
            x,
            inverse,
        ) == inverse,
{
    lemma_advance_props(ms, 0);
    assert(spec_new_cursor(ms, 0) == 0);
    let after_x = spec_line_models(ms, 0, true, x);
    assert(after_x == ms.update(0, model_after_cas(ms[0], x)));
    assert(model_check(after_x[0], x)) by {
        match ms[0].filter {
            FilterModel::Bloom { bits, num_hashes, seed0, seed1 } => {
                crate::bloom::lemma_insert_sets(bits, seed0, seed1, num_hashes, x);
            },
            FilterModel::Xxh { .. } => {},
        }
    }
    crate::container::lemma_after_cas_wf(ms[0], x);
    lemma_run_stable(after_x, 0, true, lines, x, 0);
    let later = spec_run_models(after_x, 0, true, lines);
    // Whether or not the container has filled meanwhile, the scan of `x`
    // reports it present: through check-and-set while writable (which for a
    // Bloom filter reports exactly what check does), through a plain check
    // once the cursor has moved past.
    lemma_advance_props(later, 0);
    let adv2 = spec_new_cursor(later, 0);
    if adv2 == 0 {
        assert(model_cas_result(later[0], x)) by {
            match later[0].filter {
                FilterModel::Bloom { .. } => {},
                FilterModel::Xxh { .. } => {
                    assert(false);
                },
            }
        }
    } else {
        assert(adv2 == 1);
        assert(spec_hit_before(later, x, 1));
    }
    assert(spec_found(later, 0, true, x));
}

/// Processes one input line against the containers: advances the writable
/// cursor past full containers, then scans the containers in order — a
/// plain check before the cursor, one combined check-and-set at the cursor,
/// which ends the scan (a plain check of every container when no writable
/// cursor exists) — and reports whether the line is to be written to the
/// output. The cursor never moves backwards.
pub fn process_line(params: &mut Params, cursor: &mut usize, line: &[u8]) -> (out: bool)
    requires
        old(params).wf(),
        *old(cursor) <= old(params).containers@.len(),
    ensures
        final(params).wf(),
        final(params).write_mode == old(params).write_mode,
        final(params).inverse == old(params).inverse,
        final(params).silent == old(params).silent,
        final(params).containers@.len() == old(params).containers@.len(),
        *final(cursor) == spec_new_cursor(
            models_of(old(params).containers@),
            *old(cursor) as int,
        ),
        *old(cursor) <= *final(cursor) <= old(params).containers@.len(),
        models_of(final(params).containers@) =~~= spec_line_models(
            models_of(old(params).containers@),
            *old(cursor) as int,
            old(params).write_mode,
            line@,
        ),
        out == (spec_emit(
            models_of(old(params).containers@),
            *old(cursor) as int,
            old(params).write_mode,
            line@,
            old(params).inverse,
        ) && !old(params).silent),
{
    let ghost ms0 = models_of(old(params).containers@);
    let ghost c0 = *old(cursor) as int;
    let ghost wm = old(params).write_mode;
    let n = params.containers.len();
    proof {
        lemma_advance_props(ms0, c0);
    }
    // Step 1: advance the cursor past full containers.
    while *cursor < n && params.containers[*cursor].is_full()
        invariant
            c0 <= *cursor <= n,
            spec_advance(ms0, c0) == spec_advance(ms0, *cursor as int),
        decreases n - *cursor,
    {
        *cursor = *cursor + 1;
    }
    proof {
        assert(*cursor == spec_advance(ms0, c0));
    }
    let cur_idx = *cursor;
    let could_write = params.write_mode && cur_idx < n;
    let ghost adv = spec_new_cursor(ms0, c0);
    proof {
        assert(cur_idx as int == adv);
    }
    // Step 2: scan the containers in order: a plain check before the
    // cursor, one combined check-and-set at the cursor, which ends the
    // scan; when no writable cursor exists, a plain check of every
    // container.
    let mut found = false;
    let mut i: usize = 0;
    #[verifier::loop_isolation(true)]
    loop
        invariant_except_break
            !found,
            i <= n,
            ms0 == models_of(old(params).containers@),
            ms0.len() == n,
            old(params).wf(),
            adv == spec_new_cursor(ms0, c0),
            0 <= c0 <= adv <= n,
            cur_idx as int == adv,
            (wm && adv < n) ==> !model_is_full(ms0[adv]),
            n == params.containers@.len(),
            params.wf(),
            params.write_mode == wm,
            params.inverse == old(params).inverse,
            params.silent == old(params).silent,
            could_write == (wm && adv < n),
            could_write ==> i <= adv,
            forall|j: int| 0 <= j < i ==> !model_check(#[trigger] ms0[j], line@),
            params.containers@ == old(params).containers@,
        ensures
            n == params.containers@.len(),
            params.wf(),
            params.write_mode == wm,
            params.inverse == old(params).inverse,
            params.silent == old(params).silent,
            found == spec_found(ms0, c0, wm, line@),
            models_of(params.containers@) =~~= spec_line_models(ms0, c0, wm, line@),
        decreases n - i,
    {
        if i >= n {
            // The whole list was checked without a hit; this leg is only
            // reachable without a writable cursor, and nothing was touched.
            proof {
                assert(!could_write);
                assert(!spec_hit_before(ms0, line@, n as int));
                assert(models_of(params.containers@) =~~= ms0);
                assert(models_of(params.containers@) =~~= spec_line_models(ms0, c0, wm, line@));
            }
            break;
        }
        if could_write && i == cur_idx {
            // The cursor container is not full: check and insert in one
            // pass, and end the scan here whatever it reports.
            proof {
                assert(ms0[adv] == old(params).containers@[adv].model());
                assert(!model_is_full(ms0[adv]));
            }
            let r = params.containers[i].check_and_set(line);
            found = r;
            proof {
                let cs = params.containers@;
                assert(cs[adv].model() =~~= model_after_cas(ms0[adv], line@));
                assert(models_of(cs) =~~= ms0.update(adv, model_after_cas(ms0[adv], line@))) by {
                    assert forall|j: int| 0 <= j < cs.len() implies #[trigger] models_of(cs)[j]
                        =~~= ms0.update(adv, model_after_cas(ms0[adv], line@))[j] by {
                        if j != adv {
                            assert(cs[j] == old(params).containers@[j]);
                        }
                    }
                }
                assert(!spec_hit_before(ms0, line@, adv));
                assert(r == model_cas_result(ms0[adv], line@));
                assert(found == spec_found(ms0, c0, wm, line@));
                assert(models_of(cs) =~~= spec_line_models(ms0, c0, wm, line@));
            }
            break;
        }
        let r = params.containers[i].check(line);
        proof {
            assert(params.containers@[i as int] == old(params).containers@[i as int]);
            assert(r == model_check(ms0[i as int], line@));
        }
        if r {
            found = true;
            proof {
                if could_write {
                    assert(i < adv);
                    assert(spec_hit_before(ms0, line@, adv));
                } else {
                    assert(spec_hit_before(ms0, line@, n as int));
                }
                assert(spec_found(ms0, c0, wm, line@));
                assert(models_of(params.containers@) =~~= ms0);
                assert(models_of(params.containers@) =~~= spec_line_models(ms0, c0, wm, line@));
            }
            break;
        }
        i = i + 1;
    }
    // Step 3: a hit before the cursor is authoritative; the line is not
    // inserted into the cursor container on its account.
    // Step 4: emit when the membership report agrees with the inverse flag,
    // unless silent.
    let emit = found == params.inverse;
    emit && !params.silent
}

} // verus!
