//! The bounded, rotating diagnostic log.
//!
//! The live log holds at most `MAX_FILE_BYTES`; before a write would take a
//! non-empty live log past that bound, the live log and its older generations
//! shift one generation back and the oldest retained generation is dropped, so
//! the live log and `RETAINED_GENERATIONS` older ones bound the total.
use vstd::prelude::*;

use crate::text::{decimal, push_decimal};

verus! {

/// File name of the live log inside the diagnostics directory.
pub const LOG_NAME: &'static str = "krometrail.log";

/// Largest size of one log file.
pub const MAX_FILE_BYTES: u64 = 1_048_576;

/// Older log generations kept besides the live log.
pub const RETAINED_GENERATIONS: usize = 3;

/// Position just after the last `/` of a path (zero when there is none).
pub open spec fn name_start(path: Seq<char>, n: nat) -> int
    decreases n,
{
    if n == 0 { 0 } else if path[n - 1] == '/' { n as int } else { name_start(path, (n - 1) as nat) }
}

/// Position of the last `.` at or after `from`, not at `from` itself, among the
/// first `n` characters.
pub open spec fn extension_dot(path: Seq<char>, from: int, n: nat) -> Option<int>
    decreases n,
{
    if n == 0 || n as int <= from + 1 {
        None
    } else if path[n - 1] == '.' {
        Some(n - 1)
    } else {
        extension_dot(path, from, (n - 1) as nat)
    }
}

/// The length of a path without its trailing separators and trailing `.`
/// components, which name no file of their own. A lone leading `.` stays.
pub open spec fn trimmed_len(path: Seq<char>, n: nat) -> nat
    decreases n,
{
    if n == 0 {
        0
    } else if path[n - 1] == '/' {
        trimmed_len(path, (n - 1) as nat)
    } else if path[n - 1] == '.' && n >= 2 && path[n - 2] == '/' {
        trimmed_len(path, (n - 1) as nat)
    } else {
        n
    }
}

/// Where the path's last component starts.
pub open spec fn last_component_start(path: Seq<char>) -> int {
    name_start(path, trimmed_len(path, path.len()))
}

/// The path's last component.
pub open spec fn last_component(path: Seq<char>) -> Seq<char> {
    path.subrange(last_component_start(path), trimmed_len(path, path.len()) as int)
}

/// A path that names a file: its last component is neither empty (the root or
/// the empty path), `.` nor `..`.
pub open spec fn is_file_path(path: Seq<char>) -> bool {
    let name = last_component(path);
    &&& name.len() > 0
    &&& name != "."@
    &&& name != ".."@
}

/// The path of log generation `generation` beside the live log at `path`: the
/// path itself for zero; otherwise the path up to the end of its file name's
/// stem (the name without its last extension; a leading dot starts no
/// extension), followed by the extension `log.N`. A path that names no file is
/// left as it is.
pub open spec fn generation_path_spec(path: Seq<char>, generation: nat) -> Seq<char> {
    if generation == 0 || !is_file_path(path) {
        path
    } else {
        let end = trimmed_len(path, path.len());
        let start = name_start(path, end);
        let stem_end = match extension_dot(path, start, end) {
            Some(d) => d,
            None => end as int,
        };
        path.subrange(0, stem_end) + ".log."@ + decimal(generation)
    }
}

proof fn lemma_name_start_bounds(path: Seq<char>, n: nat)
    requires
        n <= path.len(),
    ensures
        0 <= name_start(path, n) <= n,
    decreases n,
{
    if n > 0 {
        lemma_name_start_bounds(path, (n - 1) as nat);
    }
}

proof fn lemma_trimmed_len_bounds(path: Seq<char>, n: nat)
    requires
        n <= path.len(),
    ensures
        trimmed_len(path, n) <= n,
    decreases n,
{
    if n > 0 {
        lemma_trimmed_len_bounds(path, (n - 1) as nat);
    }
}

proof fn lemma_extension_dot_bounds(path: Seq<char>, from: int, n: nat)
    requires
        n <= path.len(),
    ensures
        extension_dot(path, from, n) matches Some(d) ==> from < d < n,
    decreases n,
{
    if n > 0 && n as int > from + 1 && path[n - 1] != '.' {
        lemma_extension_dot_bounds(path, from, (n - 1) as nat);
    }
}

fn trimmed_len_exec(path: &str) -> (r: usize)
    ensures
        r == trimmed_len(path@, path@.len()),
        r <= path@.len(),
{
    let n = path.unicode_len();
    let mut i: usize = n;
    proof { lemma_trimmed_len_bounds(path@, n as nat); }
    while i > 0
        invariant
            i <= n,
            n == path@.len(),
            trimmed_len(path@, n as nat) == trimmed_len(path@, i as nat),
        decreases i,
    {
        let c = path.get_char(i - 1);
        if c == '/' {
            i = i - 1;
        } else if c == '.' && i >= 2 && path.get_char(i - 2) == '/' {
            i = i - 1;
        } else {
            return i;
        }
    }
    0
}

fn name_start_exec(path: &str, n: usize) -> (r: usize)
    requires
        n <= path@.len(),
    ensures
        r == name_start(path@, n as nat),
        r <= n,
{
    let mut i: usize = n;
    proof { lemma_name_start_bounds(path@, n as nat); }
    while i > 0
        invariant
            i <= n <= path@.len(),
            name_start(path@, n as nat) == name_start(path@, i as nat),
        decreases i,
    {
        if path.get_char(i - 1) == '/' {
            return i;
        }
        i = i - 1;
    }
    0
}

fn extension_dot_exec(path: &str, from: usize, n: usize) -> (r: Option<usize>)
    requires
        from <= n <= path@.len(),
    ensures
        r == (match extension_dot(path@, from as int, n as nat) {
            Some(d) => Some(d as usize),
            None => None::<usize>,
        }),
{
    let mut i: usize = n;
    while i > 0 && i - 1 > from
        invariant
            from <= i <= n <= path@.len(),
            extension_dot(path@, from as int, n as nat) == extension_dot(path@, from as int, i as nat),
        decreases i,
    {
        if path.get_char(i - 1) == '.' {
            return Some(i - 1);
        }
        i = i - 1;
    }
    None
}

/// Whether `path` names a file.
pub fn names_a_file(path: &str) -> (r: bool)
    ensures
        r == is_file_path(path@),
{
    proof {
        reveal_strlit(".");
        reveal_strlit("..");
    }
    let end = trimmed_len_exec(path);
    let start = name_start_exec(path, end);
    let ghost name = path@.subrange(start as int, end as int);
    let len = end - start;
    if len == 0 {
        return false;
    }
    if len == 1 && path.get_char(start) == '.' {
        assert(name =~= "."@);
        return false;
    }
    if len == 2 && path.get_char(start) == '.' && path.get_char(start + 1) == '.' {
        assert(name =~= ".."@);
        return false;
    }
    if len == 1 {
        assert(name[0] != "."@[0]);
    }
    if len == 2 {
        assert(name[0] != ".."@[0] || name[1] != ".."@[1]);
    }
    true
}

/// The path of log generation `generation`: the live log itself for zero, and
/// otherwise the live log's name with extension `log.N`; a path that names no
/// file is returned as it is.
pub fn generation_path(path: &str, generation: usize) -> (r: String)
    ensures
        r@ == generation_path_spec(path@, generation as nat),
{
    if generation == 0 || !names_a_file(path) {
        return String::from_str(path);
    }
    let end = trimmed_len_exec(path);
    let start = name_start_exec(path, end);
    let stem_end = match extension_dot_exec(path, start, end) {
        Some(d) => d,
        None => end,
    };
    proof { lemma_extension_dot_bounds(path@, start as int, end as nat); }
    let ghost spec_end = match extension_dot(path@, start as int, end as nat) {
        Some(d) => d,
        None => end as int,
    };
    assert(stem_end as int == spec_end);
    let mut r = String::from_str(path.substring_char(0, stem_end));
    r.append(".log.");
    push_decimal(&mut r, generation as u64);
    assert(r@ == path@.subrange(0, spec_end) + ".log."@ + decimal(generation as nat));
    r
}

/// The renames of one rotation, oldest first: generation `g - 1` moves to
/// generation `g` for `g` from `RETAINED_GENERATIONS` down to one, so the oldest
/// retained generation is overwritten and the live log becomes generation one.
pub open spec fn rotation_moves_spec() -> Seq<(usize, usize)> {
    seq![(2usize, 3usize), (1usize, 2usize), (0usize, 1usize)]
}

pub fn rotation_moves() -> (r: Vec<(usize, usize)>)
    ensures
        r@ == rotation_moves_spec(),
{
    let mut moves: Vec<(usize, usize)> = Vec::new();
    let mut generation: usize = RETAINED_GENERATIONS;
    while generation >= 1
        invariant
            0 <= generation <= RETAINED_GENERATIONS,
            moves@ == rotation_moves_spec().take((RETAINED_GENERATIONS - generation) as int),
        decreases generation,
    {
        moves.push((generation - 1, generation));
        assert(rotation_moves_spec().take((RETAINED_GENERATIONS - generation + 1) as int)
            =~= rotation_moves_spec().take((RETAINED_GENERATIONS - generation) as int).push(((generation - 1) as usize, generation)));
        generation = generation - 1;
    }
    assert(rotation_moves_spec().take(RETAINED_GENERATIONS as int) =~= rotation_moves_spec());
    moves
}

/// The live log's length as the writer tracks it.
pub struct LogState {
    pub length: u64,
}

/// What one write does: whether it rotates first, and how many of the offered
/// bytes it passes to the live file.
pub struct WritePlan {
    pub rotate: bool,
    pub take: usize,
}

/// `min(a + b, u64::MAX)`.
pub open spec fn sat_add(a: u64, b: int) -> u64 {
    if a + b > u64::MAX { u64::MAX } else { (a + b) as u64 }
}

impl LogState {
    /// The writer's plan for `offered` bytes: rotate when the live log is
    /// non-empty and the bytes would take it past the bound, and pass at most
    /// `MAX_FILE_BYTES` bytes.
    pub fn plan_write(&self, offered: usize) -> (p: WritePlan)
        ensures
            p.rotate == (self.length > 0 && sat_add(self.length, offered as int) > MAX_FILE_BYTES),
            p.take == (if offered > MAX_FILE_BYTES { MAX_FILE_BYTES as usize } else { offered }),
    {
        let rotate = self.length > 0 && self.length.saturating_add(offered as u64) > MAX_FILE_BYTES;
        let take = if offered as u64 > MAX_FILE_BYTES { MAX_FILE_BYTES as usize } else { offered };
        WritePlan { rotate, take }
    }

    /// The live log was rotated: it is empty.
    pub fn rotated(&mut self)
        ensures
            final(self).length == 0,
    {
        self.length = 0;
    }

    /// The live file accepted `written` bytes.
    pub fn record_written(&mut self, written: usize)
        ensures
            final(self).length == sat_add(old(self).length, written as int),
    {
        self.length = self.length.saturating_add(written as u64);
    }
}

/// A write keeps the live log within its bound: when the log started within the
/// bound, planning a write, rotating when the plan says so and writing at most
/// the planned bytes leaves it within the bound.
pub proof fn lemma_write_keeps_bound(length: u64, offered: usize, written: usize)
    requires
        length <= MAX_FILE_BYTES,
        written <= (if offered > MAX_FILE_BYTES { MAX_FILE_BYTES as usize } else { offered }),
    ensures
        ({
            let rotate = length > 0 && sat_add(length, offered as int) > MAX_FILE_BYTES;
            let start: u64 = if rotate { 0 } else { length };
            sat_add(start, written as int) <= MAX_FILE_BYTES
        }),
{
}

/// The log files on disk, by generation: index zero is the live log and index
/// `g` generation `g`; each entry is the length of a present file, or `None`
/// for a missing one.
pub open spec fn log_files_within(files: Seq<Option<nat>>) -> bool {
    &&& files.len() == RETAINED_GENERATIONS + 1
    &&& forall|g: int| 0 <= g < files.len() ==> (#[trigger] files[g] matches Some(n) ==> n <= MAX_FILE_BYTES)
}

/// The length of a file, zero when it is missing.
pub open spec fn file_len(f: Option<nat>) -> nat {
    match f {
        Some(n) => n,
        None => 0,
    }
}

/// The bytes of all log files together.
pub open spec fn log_total(files: Seq<Option<nat>>) -> nat {
    file_len(files[0]) + file_len(files[1]) + file_len(files[2]) + file_len(files[3])
}

/// Renaming generation `from` to generation `to`, when `from` exists.
pub open spec fn move_file(files: Seq<Option<nat>>, from: int, to: int) -> Seq<Option<nat>> {
    if files[from] is Some {
        files.update(to, files[from]).update(from, None)
    } else {
        files
    }
}

/// A rotation on disk: the renames of `rotation_moves_spec` in order, then a
/// new empty live log.
pub open spec fn rotate_files(files: Seq<Option<nat>>) -> Seq<Option<nat>> {
    let moves = rotation_moves_spec();
    let f1 = move_file(files, moves[0].0 as int, moves[0].1 as int);
    let f2 = move_file(f1, moves[1].0 as int, moves[1].1 as int);
    let f3 = move_file(f2, moves[2].0 as int, moves[2].1 as int);
    f3.update(0, Some(0nat))
}

/// One write on disk as the writer performs it: rotate when the plan says so,
/// then append `written` bytes to the live log.
pub open spec fn write_files(files: Seq<Option<nat>>, offered: nat, written: nat) -> Seq<Option<nat>> {
    let live = file_len(files[0]);
    let rotate = live > 0 && live + offered > MAX_FILE_BYTES;
    let f = if rotate { rotate_files(files) } else { files };
    f.update(0, Some(file_len(f[0]) + written))
}

/// The log stays within its aggregate bound: when every log file is within
/// `MAX_FILE_BYTES`, a write that follows the writer's plan (rotating first when
/// the plan says so, then writing at most the planned bytes) keeps every file
/// within that bound, so the live log and its retained generations never hold
/// more than `(RETAINED_GENERATIONS + 1) * MAX_FILE_BYTES` bytes.
pub proof fn lemma_log_stays_bounded(files: Seq<Option<nat>>, offered: nat, written: nat)
    requires
        log_files_within(files),
        written <= (if offered > MAX_FILE_BYTES { MAX_FILE_BYTES as nat } else { offered }),
    ensures
        log_files_within(write_files(files, offered, written)),
        log_total(write_files(files, offered, written)) <= (RETAINED_GENERATIONS + 1) * MAX_FILE_BYTES,
{
    let live = file_len(files[0]);
    let rotate = live > 0 && live + offered > MAX_FILE_BYTES;
    let r = rotate_files(files);
    assert(rotation_moves_spec()[0] == (2usize, 3usize));
    assert(rotation_moves_spec()[1] == (1usize, 2usize));
    assert(rotation_moves_spec()[2] == (0usize, 1usize));
    assert(files[0] matches Some(n) ==> n <= MAX_FILE_BYTES);
    assert(files[1] matches Some(n) ==> n <= MAX_FILE_BYTES);
    assert(files[2] matches Some(n) ==> n <= MAX_FILE_BYTES);
    assert(files[3] matches Some(n) ==> n <= MAX_FILE_BYTES);
    let after = write_files(files, offered, written);
    assert(after.len() == 4);
    assert forall|g: int| 0 <= g < after.len() implies (#[trigger] after[g] matches Some(n) ==> n <= MAX_FILE_BYTES) by {
        assert(g == 0 || g == 1 || g == 2 || g == 3);
    }
    assert(after[0] matches Some(n) ==> n <= MAX_FILE_BYTES);
    assert(after[1] matches Some(n) ==> n <= MAX_FILE_BYTES);
    assert(after[2] matches Some(n) ==> n <= MAX_FILE_BYTES);
    assert(after[3] matches Some(n) ==> n <= MAX_FILE_BYTES);
}

/// The bytes each write of a sequence may pass on: at most the offered bytes
/// and at most `MAX_FILE_BYTES`, as `LogState::plan_write` plans.
pub open spec fn writes_follow_plan(writes: Seq<(nat, nat)>) -> bool {
    forall|i: int| 0 <= i < writes.len() ==> (#[trigger] writes[i]).1 <= (if writes[i].0 > MAX_FILE_BYTES {
        MAX_FILE_BYTES as nat
    } else {
        writes[i].0
    })
}

/// The log files after a sequence of `(offered, written)` writes.
pub open spec fn write_all(files: Seq<Option<nat>>, writes: Seq<(nat, nat)>) -> Seq<Option<nat>>
    decreases writes.len(),
{
    if writes.len() == 0 {
        files
    } else {
        write_all(write_files(files, writes[0].0, writes[0].1), writes.drop_first())
    }
}

/// Over any sequence of writes that follow the writer's plan, every log file
/// stays within `MAX_FILE_BYTES` and all of them together within
/// `(RETAINED_GENERATIONS + 1) * MAX_FILE_BYTES`.
pub proof fn lemma_log_bounded_over_writes(files: Seq<Option<nat>>, writes: Seq<(nat, nat)>)
    requires
        log_files_within(files),
        writes_follow_plan(writes),
    ensures
        log_files_within(write_all(files, writes)),
        log_total(write_all(files, writes)) <= (RETAINED_GENERATIONS + 1) * MAX_FILE_BYTES,
    decreases writes.len(),
{
    if writes.len() == 0 {
        assert(files[0] matches Some(n) ==> n <= MAX_FILE_BYTES);
        assert(files[1] matches Some(n) ==> n <= MAX_FILE_BYTES);
        assert(files[2] matches Some(n) ==> n <= MAX_FILE_BYTES);
        assert(files[3] matches Some(n) ==> n <= MAX_FILE_BYTES);
    } else {
        assert(writes[0].1 <= (if writes[0].0 > MAX_FILE_BYTES { MAX_FILE_BYTES as nat } else { writes[0].0 }));
        lemma_log_stays_bounded(files, writes[0].0, writes[0].1);
        assert forall|i: int| 0 <= i < writes.drop_first().len() implies (#[trigger] writes.drop_first()[i]).1 <= (if writes.drop_first()[i].0 > MAX_FILE_BYTES {
            MAX_FILE_BYTES as nat
        } else {
            writes.drop_first()[i].0
        }) by {
            assert(writes.drop_first()[i] == writes[i + 1]);
        }
        lemma_log_bounded_over_writes(write_files(files, writes[0].0, writes[0].1), writes.drop_first());
    }
}

/// Four full-size writes always leave the oldest retained generation on disk:
/// each write after the first rotates, shifting the live log one generation back.
pub proof fn lemma_full_writes_fill_generations(files: Seq<Option<nat>>)
    requires
        log_files_within(files),
    ensures
        ({
            let full = (MAX_FILE_BYTES as nat, MAX_FILE_BYTES as nat);
            write_all(files, seq![full, full, full, full])[RETAINED_GENERATIONS as int] is Some
        }),
{
    let m = MAX_FILE_BYTES as nat;
    let full = (m, m);
    let ws = seq![full, full, full, full];
    assert(rotation_moves_spec()[0] == (2usize, 3usize));
    assert(rotation_moves_spec()[1] == (1usize, 2usize));
    assert(rotation_moves_spec()[2] == (0usize, 1usize));
    let f1 = write_files(files, m, m);
    assert(f1.len() == 4 && f1[0] == Some(m));
    let f2 = write_files(f1, m, m);
    assert(f2.len() == 4 && f2[0] == Some(m) && f2[1] is Some);
    let f3 = write_files(f2, m, m);
    assert(f3.len() == 4 && f3[0] == Some(m) && f3[1] is Some && f3[2] is Some);
    let f4 = write_files(f3, m, m);
    assert(f4[3] is Some);
    reveal_with_fuel(write_all, 5);
    assert(ws.drop_first() =~= seq![full, full, full]);
    assert(ws.drop_first().drop_first() =~= seq![full, full]);
    assert(ws.drop_first().drop_first().drop_first() =~= seq![full]);
    assert(ws.drop_first().drop_first().drop_first().drop_first() =~= Seq::<(nat, nat)>::empty());
    assert(write_all(files, ws) == f4);
}

} // verus!
