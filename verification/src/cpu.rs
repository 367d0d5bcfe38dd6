//! Processor information: what the lines of /proc/cpuinfo, the frequency
//! limits and the cache descriptions under /sys make of a `Cpuinfo`.
use vstd::prelude::*;

use crate::number::{decimal, decimal_i64, parse_i32_chars, parse_i32_spec};
use crate::text::{
    append_str, chars_of, has_sub, remove_all, remove_str, split_on, str_eq, string_of,
    string_views, contains_str, nth_piece,
};

verus! {

broadcast use vstd::seq_lib::group_seq_properties;

/// The number of leading /proc/cpuinfo lines that describe the processor;
/// later lines only contribute their clock speed.
pub const HEADER_LINES: i32 = 28;

/// One cache of the processor, from a directory under
/// /sys/devices/system/cpu/cpu0/cache/.
#[derive(Debug)]
pub struct Cache {
    level: i32,
    instance: i32,
    size_in_k: i32,
    physical_memory: Option<String>,
}

/// What a `Cache` holds.
pub struct CacheView {
    pub level: i32,
    pub instance: i32,
    pub size_in_k: i32,
    pub physical_memory: Option<Seq<char>>,
}

/// The view of an optional string.
pub open spec fn opt_view(s: Option<String>) -> Option<Seq<char>> {
    match s {
        Some(t) => Some(t@),
        None => None,
    }
}

impl View for Cache {
    type V = CacheView;

    closed spec fn view(&self) -> CacheView {
        CacheView {
            level: self.level,
            instance: self.instance,
            size_in_k: self.size_in_k,
            physical_memory: opt_view(self.physical_memory),
        }
    }
}

impl Cache {
    /// The cache level.
    pub fn level(&self) -> (r: i32)
        ensures
            r == self@.level,
    {
        self.level
    }

    /// The number of the cache's directory (`indexN`).
    pub fn instance(&self) -> (r: i32)
        ensures
            r == self@.instance,
    {
        self.instance
    }

    /// The total size in KiB over all copies of the cache.
    pub fn size_in_k(&self) -> (r: i32)
        ensures
            r == self@.size_in_k,
    {
        self.size_in_k
    }

    /// The size of one copy and the number of copies, as `"<size>x<copies>"`.
    pub fn physical_memory(&self) -> (r: Option<&String>)
        ensures
            (match r {
                Some(s) => self@.physical_memory == Some(s@),
                None => self@.physical_memory is None,
            }),
    {
        self.physical_memory.as_ref()
    }
}

/// Processor information.
#[derive(Debug)]
pub struct Cpuinfo {
    modelname: Option<String>,
    architecture: i32,
    cores: i32,
    threads: i32,
    maxmhz: i32,
    minmhz: i32,
    cpufreq: Vec<i32>,
    cache: Vec<Cache>,
}

/// What a `Cpuinfo` holds.
pub struct CpuinfoView {
    pub modelname: Option<Seq<char>>,
    pub architecture: i32,
    pub cores: i32,
    pub threads: i32,
    pub maxmhz: i32,
    pub minmhz: i32,
    pub cpufreq: Seq<i32>,
    pub cache: Seq<CacheView>,
}

/// The views of a sequence of caches.
pub open spec fn cache_views(c: Seq<Cache>) -> Seq<CacheView> {
    c.map_values(|x: Cache| x@)
}

impl View for Cpuinfo {
    type V = CpuinfoView;

    closed spec fn view(&self) -> CpuinfoView {
        CpuinfoView {
            modelname: opt_view(self.modelname),
            architecture: self.architecture,
            cores: self.cores,
            threads: self.threads,
            maxmhz: self.maxmhz,
            minmhz: self.minmhz,
            cpufreq: self.cpufreq@,
            cache: cache_views(self.cache@),
        }
    }
}

// ----------------------------------------------------------------------------
// The lines of /proc/cpuinfo
// ----------------------------------------------------------------------------

/// The word size that a `flags` line shows: 64 when it holds `lm`, else 32
/// when it holds `pm`, else 16 when it holds `rl`.
pub open spec fn flags_architecture(line: Seq<char>) -> Option<i32> {
    if has_sub(line, "lm"@) {
        Some(64)
    } else if has_sub(line, "pm"@) {
        Some(32)
    } else if has_sub(line, "rl"@) {
        Some(16)
    } else {
        None
    }
}

/// The number after a label: the line without the label, read as an `i32`.
pub open spec fn labelled_i32(line: Seq<char>, label: Seq<char>) -> Option<i32> {
    parse_i32_spec(remove_all(line, label))
}

/// The whole megahertz of a `cpu MHz` line: the text before the first `.`
/// once the label is removed, read as an `i32`.
pub open spec fn mhz_of(line: Seq<char>) -> Option<i32> {
    parse_i32_spec(split_on(remove_all(line, "cpu MHz\t\t: "@), '.')[0])
}

/// What one of the leading lines sets: the model name, the architecture,
/// the number of cores and the number of threads (siblings).
pub open spec fn header_step(v: CpuinfoView, line: Seq<char>) -> CpuinfoView {
    CpuinfoView {
        modelname: if has_sub(line, "model name"@) {
            Some(remove_all(line, "model name\t: "@))
        } else {
            v.modelname
        },
        architecture: if has_sub(line, "flags\t\t:"@) && flags_architecture(line) is Some {
            flags_architecture(line).unwrap()
        } else {
            v.architecture
        },
        cores: if has_sub(line, "cpu cores\t:"@) {
            labelled_i32(line, "cpu cores\t: "@).unwrap()
        } else {
            v.cores
        },
        threads: if has_sub(line, "siblings\t:"@) {
            labelled_i32(line, "siblings\t: "@).unwrap()
        } else {
            v.threads
        },
        ..v
    }
}

/// What one line of /proc/cpuinfo does, given how many lines came before it
/// (counted up to 28): a leading line updates the header fields, and any
/// `cpu MHz` line adds its clock speed.
pub open spec fn speed_step(v: CpuinfoView, line: Seq<char>, count: int) -> CpuinfoView {
    let v1 = if count < HEADER_LINES {
        header_step(v, line)
    } else {
        v
    };
    if has_sub(line, "cpu MHz"@) {
        CpuinfoView { cpufreq: v1.cpufreq.push(mhz_of(line).unwrap()), ..v1 }
    } else {
        v1
    }
}

/// The line counter after a line: one more, up to 28.
pub open spec fn next_count(count: int) -> int {
    if count < HEADER_LINES {
        count + 1
    } else {
        count
    }
}

/// The numbers that the line must carry can be read: the cores and siblings
/// of a leading line, and the megahertz of any `cpu MHz` line.
pub open spec fn speed_line_ok(line: Seq<char>, count: int) -> bool {
    &&& count < HEADER_LINES && has_sub(line, "cpu cores\t:"@) ==> labelled_i32(
        line,
        "cpu cores\t: "@,
    ) is Some
    &&& count < HEADER_LINES && has_sub(line, "siblings\t:"@) ==> labelled_i32(
        line,
        "siblings\t: "@,
    ) is Some
    &&& has_sub(line, "cpu MHz"@) ==> mhz_of(line) is Some
}

/// Once the leading lines are counted, a line changes nothing but the list of
/// clock speeds, to which it adds at most one entry.
pub proof fn lemma_late_lines_only_add_speeds(v: CpuinfoView, line: Seq<char>, count: int)
    requires
        count >= HEADER_LINES,
    ensures
        ({
            let w = speed_step(v, line, count);
            &&& w.modelname == v.modelname
            &&& w.architecture == v.architecture
            &&& w.cores == v.cores
            &&& w.threads == v.threads
            &&& w.maxmhz == v.maxmhz
            &&& w.minmhz == v.minmhz
            &&& w.cache == v.cache
            &&& w.cpufreq.len() <= v.cpufreq.len() + 1
            &&& w.cpufreq.take(v.cpufreq.len() as int) == v.cpufreq
        }),
        next_count(count) == count,
{
    let w = speed_step(v, line, count);
    assert(w.cpufreq.take(v.cpufreq.len() as int) =~= v.cpufreq);
}

/// Whatever line is taken, the frequency limits and the caches stay as they
/// are, and the clock speeds keep those they had, with at most one more.
pub proof fn lemma_speed_step_frame(v: CpuinfoView, line: Seq<char>, count: int)
    ensures
        ({
            let w = speed_step(v, line, count);
            &&& w.maxmhz == v.maxmhz
            &&& w.minmhz == v.minmhz
            &&& w.cache == v.cache
            &&& v.cpufreq.is_prefix_of(w.cpufreq)
            &&& w.cpufreq.len() <= v.cpufreq.len() + 1
        }),
{
    let w = speed_step(v, line, count);
    assert(w.cpufreq.take(v.cpufreq.len() as int) =~= v.cpufreq);
}

/// Of the leading lines, only one holding the label `flags\t\t:` sets the
/// architecture: to 64 when it holds `lm`, else to 32 when it holds `pm`, else
/// to 16 when it holds `rl`; any other line, such as one labelled only
/// `flags\t:` or `vmx flags\t:`, leaves it as it was. Past the leading lines
/// nothing changes it.
pub proof fn lemma_architecture_from_flags_line(v: CpuinfoView, line: Seq<char>, count: int)
    ensures
        ({
            let a = speed_step(v, line, count).architecture;
            let flags = count < HEADER_LINES && has_sub(line, "flags\t\t:"@);
            &&& !flags ==> a == v.architecture
            &&& flags && has_sub(line, "lm"@) ==> a == 64
            &&& flags && !has_sub(line, "lm"@) && has_sub(line, "pm"@) ==> a == 32
            &&& flags && !has_sub(line, "lm"@) && !has_sub(line, "pm"@) && has_sub(line, "rl"@)
                ==> a == 16
            &&& flags && !has_sub(line, "lm"@) && !has_sub(line, "pm"@) && !has_sub(line, "rl"@)
                ==> a == v.architecture
        }),
{
}

/// The line counter never passes 28, and counts every line before that.
pub proof fn lemma_count_saturates(count: int)
    requires
        count <= HEADER_LINES,
    ensures
        next_count(count) <= HEADER_LINES,
        next_count(count) == if count < HEADER_LINES {
            count + 1
        } else {
            HEADER_LINES as int
        },
{
}

/// The line counter when line `i` (from 0) of /proc/cpuinfo is read.
pub open spec fn header_count(i: int) -> int {
    if i < HEADER_LINES {
        i
    } else {
        HEADER_LINES as int
    }
}

/// What the lines of /proc/cpuinfo, taken in order from the first, make of
/// `v`.
pub open spec fn scan_lines(v: CpuinfoView, lines: Seq<Seq<char>>) -> CpuinfoView
    decreases lines.len(),
{
    if lines.len() == 0 {
        v
    } else {
        speed_step(scan_lines(v, lines.drop_last()), lines.last(), header_count(lines.len() - 1))
    }
}

/// Every line can be taken at the place where it stands.
pub open spec fn lines_ok(lines: Seq<Seq<char>>) -> bool {
    forall|i: int| 0 <= i < lines.len() ==> speed_line_ok(#[trigger] lines[i], header_count(i))
}

/// The clock speeds that the `cpu MHz` lines among `lines` give, in order.
pub open spec fn speeds_of(lines: Seq<Seq<char>>) -> Seq<i32>
    decreases lines.len(),
{
    if lines.len() == 0 {
        Seq::empty()
    } else if has_sub(lines.last(), "cpu MHz"@) {
        speeds_of(lines.drop_last()).push(mhz_of(lines.last()).unwrap())
    } else {
        speeds_of(lines.drop_last())
    }
}

/// The fields that only the leading lines set, and those that lines never
/// touch, are the same in `a` and `b`.
pub open spec fn same_header(a: CpuinfoView, b: CpuinfoView) -> bool {
    &&& a.modelname == b.modelname
    &&& a.architecture == b.architecture
    &&& a.cores == b.cores
    &&& a.threads == b.threads
    &&& a.maxmhz == b.maxmhz
    &&& a.minmhz == b.minmhz
    &&& a.cache == b.cache
}

/// Every `cpu MHz` line adds its speed, wherever it stands: the speeds after
/// the scan are those before it followed by the speeds of the lines.
pub proof fn lemma_scan_collects_every_speed(v: CpuinfoView, lines: Seq<Seq<char>>)
    ensures
        scan_lines(v, lines).cpufreq == v.cpufreq + speeds_of(lines),
    decreases lines.len(),
{
    if lines.len() == 0 {
        assert(v.cpufreq + Seq::<i32>::empty() =~= v.cpufreq);
    } else {
        lemma_scan_collects_every_speed(v, lines.drop_last());
        let prev = speeds_of(lines.drop_last());
        assert((v.cpufreq + prev).push(mhz_of(lines.last()).unwrap()) =~= v.cpufreq + prev.push(
            mhz_of(lines.last()).unwrap(),
        ));
    }
}

/// Only the first 28 lines decide the model name, architecture, cores and
/// threads: scanning more lines changes none of them, nor the frequency
/// limits or the caches.
pub proof fn lemma_header_from_first_lines(v: CpuinfoView, lines: Seq<Seq<char>>)
    requires
        lines.len() >= HEADER_LINES,
    ensures
        same_header(scan_lines(v, lines), scan_lines(v, lines.take(HEADER_LINES as int))),
    decreases lines.len(),
{
    if lines.len() == HEADER_LINES {
        assert(lines.take(HEADER_LINES as int) =~= lines);
    } else {
        let d = lines.drop_last();
        lemma_header_from_first_lines(v, d);
        assert(d.take(HEADER_LINES as int) =~= lines.take(HEADER_LINES as int));
        lemma_late_lines_only_add_speeds(scan_lines(v, d), lines.last(), header_count(lines.len() - 1));
    }
}

/// The first 28 lines of `lines`, or all of them when there are fewer.
pub open spec fn first_lines(lines: Seq<Seq<char>>) -> Seq<Seq<char>> {
    if lines.len() <= HEADER_LINES {
        lines
    } else {
        lines.take(HEADER_LINES as int)
    }
}

/// Two runs over /proc/cpuinfo texts that agree on their first 28 lines and
/// on the speeds of their `cpu MHz` lines make the same record of the same
/// start: the other lines after the 28th have no effect.
pub proof fn lemma_scan_depends_on_header_and_speeds(
    v: CpuinfoView,
    a: Seq<Seq<char>>,
    b: Seq<Seq<char>>,
)
    requires
        first_lines(a) == first_lines(b),
        speeds_of(a) == speeds_of(b),
    ensures
        scan_lines(v, a) == scan_lines(v, b),
{
    if !(a.len() >= HEADER_LINES && b.len() >= HEADER_LINES) {
        if a.len() < HEADER_LINES {
            assert(first_lines(a) == a);
            assert(b.len() <= HEADER_LINES) by {
                if b.len() > HEADER_LINES {
                    assert(first_lines(b).len() == HEADER_LINES);
                }
            }
        } else {
            assert(first_lines(b) == b);
            assert(a.len() <= HEADER_LINES) by {
                if a.len() > HEADER_LINES {
                    assert(first_lines(a).len() == HEADER_LINES);
                }
            }
        }
        assert(a =~= b);
    } else {
        assert(a.take(HEADER_LINES as int) =~= first_lines(a));
        assert(b.take(HEADER_LINES as int) =~= first_lines(b));
        lemma_header_from_first_lines(v, a);
        lemma_header_from_first_lines(v, b);
        lemma_scan_collects_every_speed(v, a);
        lemma_scan_collects_every_speed(v, b);
        let x = scan_lines(v, a);
        let y = scan_lines(v, b);
        assert(x.cpufreq =~= y.cpufreq);
        assert(x == y);
    }
}

fn labelled_value(line: &Vec<char>, label: &str) -> (r: Option<i32>)
    requires
        label@.len() > 0,
    ensures
        r == labelled_i32(line@, label@),
{
    let rest = remove_str(line, label);
    parse_i32_chars(&rest)
}

fn mhz_value(line: &Vec<char>) -> (r: Option<i32>)
    ensures
        r == mhz_of(line@),
{
    proof {
        reveal_strlit("cpu MHz\t\t: ");
        crate::text::lemma_split_on_nonempty(remove_all(line@, "cpu MHz\t\t: "@), '.');
    }
    let rest = remove_str(line, "cpu MHz\t\t: ");
    match nth_piece(&rest, '.', 0) {
        Some(p) => parse_i32_chars(&p),
        None => None,
    }
}

impl Cpuinfo {
    /// Processor information with nothing known yet.
    pub fn new() -> (r: Cpuinfo)
        ensures
            r@.modelname is None,
            r@.architecture == 0,
            r@.cores == 0,
            r@.threads == 0,
            r@.maxmhz == 0,
            r@.minmhz == 0,
            r@.cpufreq == Seq::<i32>::empty(),
            r@.cache == Seq::<CacheView>::empty(),
    {
        let r = Cpuinfo {
            modelname: None,
            architecture: 0,
            cores: 0,
            threads: 0,
            maxmhz: 0,
            minmhz: 0,
            cpufreq: Vec::new(),
            cache: Vec::new(),
        };
        assert(cache_views(r.cache@) =~= Seq::<CacheView>::empty());
        r
    }

    /// Whether `basic_speed_info` can take `linestring` after `count` lines:
    /// the numbers that the line must carry can be read.
    pub fn speed_line_ok(linestring: &str, count: i32) -> (r: bool)
        ensures
            r == speed_line_ok(linestring@, count as int),
    {
        proof {
            reveal_strlit("cpu cores\t: ");
            reveal_strlit("siblings\t: ");
        }
        let line = chars_of(linestring);
        if count < HEADER_LINES {
            if contains_str(&line, "cpu cores\t:") && labelled_value(&line, "cpu cores\t: ").is_none() {
                return false;
            }
            if contains_str(&line, "siblings\t:") && labelled_value(&line, "siblings\t: ").is_none() {
                return false;
            }
        }
        if contains_str(&line, "cpu MHz") && mhz_value(&line).is_none() {
            return false;
        }
        true
    }

    /// Takes one line of /proc/cpuinfo, of which `count` lines came before
    /// (counted up to 28), and gives back the count after it.
    pub fn basic_speed_info(&mut self, linestring: String, count: i32) -> (r: i32)
        requires
            speed_line_ok(linestring@, count as int),
        ensures
            final(self)@ == speed_step(old(self)@, linestring@, count as int),
            r == next_count(count as int),
            final(self)@.maxmhz == old(self)@.maxmhz,
            final(self)@.minmhz == old(self)@.minmhz,
            final(self)@.cache == old(self)@.cache,
            old(self)@.cpufreq.is_prefix_of(final(self)@.cpufreq),
            final(self)@.cpufreq.len() <= old(self)@.cpufreq.len() + 1,
            count >= HEADER_LINES ==> r == count && same_header(final(self)@, old(self)@),
            !has_sub(linestring@, "flags\t\t:"@) ==> final(self)@.architecture == old(
                self,
            )@.architecture,
    {
        proof {
            lemma_speed_step_frame(self@, linestring@, count as int);
            lemma_architecture_from_flags_line(self@, linestring@, count as int);
            if count >= HEADER_LINES {
                lemma_late_lines_only_add_speeds(self@, linestring@, count as int);
            }
            reveal_strlit("model name\t: ");
            reveal_strlit("cpu cores\t: ");
            reveal_strlit("siblings\t: ");
        }
        let line = chars_of(linestring.as_str());
        let mut count = count;
        if count < HEADER_LINES {
            count = count + 1;
            if contains_str(&line, "model name") {
                let name = remove_str(&line, "model name\t: ");
                self.modelname = Some(string_of(&name));
            }
            if contains_str(&line, "flags\t\t:") {
                if contains_str(&line, "lm") {
                    self.architecture = 64;
                } else if contains_str(&line, "pm") {
                    self.architecture = 32;
                } else if contains_str(&line, "rl") {
                    self.architecture = 16;
                }
            }
            if contains_str(&line, "cpu cores\t:") {
                self.cores = labelled_value(&line, "cpu cores\t: ").unwrap();
            }
            if contains_str(&line, "siblings\t:") {
                self.threads = labelled_value(&line, "siblings\t: ").unwrap();
            }
        }
        if contains_str(&line, "cpu MHz") {
            let mhz = mhz_value(&line).unwrap();
            self.cpufreq.push(mhz);
        }
        count
    }
}

// ----------------------------------------------------------------------------
// Frequency limits
// ----------------------------------------------------------------------------

/// Integer division that rounds toward zero, as `/` does on Rust integers.
pub open spec fn div_trunc(a: int, d: int) -> int {
    if a >= 0 {
        a / d
    } else {
        -((-a) / d)
    }
}

/// The megahertz of a frequency file's first line, which gives kilohertz.
pub open spec fn khz_line_to_mhz(line: Seq<char>) -> int {
    div_trunc(parse_i32_spec(line).unwrap() as int, 1000)
}

/// The megahertz of a frequency line is its kilohertz `k` divided by 1000,
/// rounded toward zero: `k` and `1000` times the result differ by less than
/// 1000, and the result is no further from zero than `k / 1000`.
pub proof fn lemma_khz_to_mhz_rounds_toward_zero(line: Seq<char>)
    requires
        parse_i32_spec(line) is Some,
    ensures
        ({
            let k = parse_i32_spec(line).unwrap() as int;
            let r = khz_line_to_mhz(line);
            &&& k >= 0 ==> 0 <= k - 1000 * r < 1000
            &&& k < 0 ==> -1000 < k - 1000 * r <= 0
        }),
{
    let k = parse_i32_spec(line).unwrap() as int;
    if k >= 0 {
        assert(0 <= k - 1000 * (k / 1000) < 1000);
    } else {
        let m = -k;
        assert(0 <= m - 1000 * (m / 1000) < 1000);
    }
}

/// Stores in `value` the megahertz that `first_line` (the first line of a
/// cpufreq limit file, in kilohertz) gives.
pub fn freqlimit(first_line: &str, value: &mut i32)
    requires
        parse_i32_spec(first_line@) is Some,
    ensures
        *final(value) == khz_line_to_mhz(first_line@),
        parse_i32_spec(first_line@).unwrap() >= 0 ==> 0 <= parse_i32_spec(first_line@).unwrap()
            - 1000 * *final(value) < 1000,
        parse_i32_spec(first_line@).unwrap() < 0 ==> -1000 < parse_i32_spec(first_line@).unwrap()
            - 1000 * *final(value) <= 0,
{
    proof {
        lemma_khz_to_mhz_rounds_toward_zero(first_line@);
    }
    let khz = crate::number::parse_i32(first_line).unwrap();
    *value = khz / 1000;
}

// ----------------------------------------------------------------------------
// Caches
// ----------------------------------------------------------------------------

/// The directory that describes the caches of the first processor.
pub open spec fn cache_dir() -> Seq<char> {
    "/sys/devices/system/cpu/cpu0/cache/"@
}

/// The name of a cache directory entry: its path without the cache
/// directory.
pub fn cache_index_name(path: &str) -> (r: String)
    ensures
        r@ == remove_all(path@, cache_dir()),
{
    proof {
        reveal_strlit("/sys/devices/system/cpu/cpu0/cache/");
    }
    let p = chars_of(path);
    string_of(&remove_str(&p, "/sys/devices/system/cpu/cpu0/cache/"))
}

/// Whether the entry describes a cache: every entry but `uevent` does.
pub fn is_cache_index(indexname: &str) -> (r: bool)
    ensures
        r == (indexname@ != "uevent"@),
{
    !str_eq(indexname, "uevent")
}

/// The number of a cache entry `indexN`: its name without `index`, read as
/// an `i32`.
pub fn cache_instance(indexname: &str) -> (r: Option<i32>)
    ensures
        r == parse_i32_spec(remove_all(indexname@, "index"@)),
{
    proof {
        reveal_strlit("index");
    }
    let p = chars_of(indexname);
    parse_i32_chars(&remove_str(&p, "index"))
}

/// The size of one copy of a cache, from its `size` file's first line: the
/// line without `K`, read as an `i32`.
pub fn cache_size_k(size_line: &str) -> (r: Option<i32>)
    ensures
        r == parse_i32_spec(remove_all(size_line@, "K"@)),
{
    proof {
        reveal_strlit("K");
    }
    let p = chars_of(size_line);
    parse_i32_chars(&remove_str(&p, "K"))
}

/// The path of a file of a cache entry: the cache directory, the entry's
/// name, then the file (such as `/size`).
pub fn cache_file_path(indexfile: &str, indexname: &str) -> (r: String)
    ensures
        r@ == cache_dir() + indexname@ + indexfile@,
{
    let mut p = chars_of("/sys/devices/system/cpu/cpu0/cache/");
    append_str(&mut p, indexname);
    append_str(&mut p, indexfile);
    string_of(&p)
}

/// The path of the file that lists the processors sharing cache `instance`
/// of processor `core`.
pub open spec fn shared_cpu_list_path_spec(core: int, instance: int) -> Seq<char> {
    "/sys/devices/system/cpu/cpu"@ + decimal(core) + "/cache/index"@ + decimal(instance)
        + "/shared_cpu_list"@
}

/// The path of the file that lists the processors sharing cache `instance`
/// of processor `core`.
pub fn shared_cpu_list_path(core: i32, instance: i32) -> (r: String)
    ensures
        r@ == shared_cpu_list_path_spec(core as int, instance as int),
{
    let mut p = chars_of("/sys/devices/system/cpu/cpu");
    let mut c = decimal_i64(core as i64);
    p.append(&mut c);
    append_str(&mut p, "/cache/index");
    let mut i = decimal_i64(instance as i64);
    p.append(&mut i);
    append_str(&mut p, "/shared_cpu_list");
    string_of(&p)
}

/// The number of different lists among `lists`.
pub open spec fn distinct_count(lists: Seq<String>) -> nat {
    string_views(lists).to_set().len()
}

/// The number of different lists among `lists`: how many copies of a cache
/// the processors' sharing lists show.
pub fn count_distinct(lists: &Vec<String>) -> (r: usize)
    ensures
        r == distinct_count(lists@),
        r <= lists.len(),
{
    let mut seen: Vec<String> = Vec::new();
    let n = lists.len();
    for i in 0..n
        invariant
            n == lists.len(),
            seen.len() <= i,
            string_views(seen@).no_duplicates(),
            string_views(seen@).to_set() == string_views(lists@).take(i as int).to_set(),
    {
        let ghost sv = string_views(seen@);
        let item = &lists[i];
        let mut found = false;
        let mut k: usize = 0;
        while k < seen.len()
            invariant
                k <= seen.len(),
                sv == string_views(seen@),
                found <==> exists|j: int| 0 <= j < k && #[trigger] sv[j] == item@,
            decreases seen.len() - k,
        {
            assert(sv[k as int] == seen@[k as int]@);
            if seen[k] == *item {
                found = true;
            }
            k = k + 1;
        }
        let ghost taken = string_views(lists@).take(i as int);
        assert(string_views(lists@).take(i + 1) =~= taken.push(item@));
        assert(taken.push(item@).to_set() =~= taken.to_set().insert(item@));
        if !found {
            seen.push(item.clone());
            let ghost now = string_views(seen@);
            assert(now =~= sv.push(item@));
            assert(!sv.contains(item@));
            assert(now.to_set() =~= sv.to_set().insert(item@));
        } else {
            assert(sv.contains(item@));
            assert(sv.to_set().insert(item@) =~= sv.to_set());
        }
    }
    proof {
        assert(string_views(lists@).take(n as int) =~= string_views(lists@));
        string_views(seen@).unique_seq_to_set();
    }
    seen.len()
}

/// The cache that a directory entry describes, given its level, its number,
/// the size of one copy and the number of copies.
pub open spec fn cache_entry(level: i32, instance: i32, size_k: i32, copies: int) -> CacheView {
    CacheView {
        level: level,
        instance: instance,
        size_in_k: (size_k * copies) as i32,
        physical_memory: Some(decimal(size_k as int) + "x"@ + decimal(copies)),
    }
}

impl Cpuinfo {
    /// Stores the maximum and minimum frequency in megahertz, from the first
    /// lines of the two cpufreq limit files (in kilohertz).
    pub fn set_freq_limits(&mut self, max_line: &str, min_line: &str)
        requires
            parse_i32_spec(max_line@) is Some,
            parse_i32_spec(min_line@) is Some,
        ensures
            final(self)@ == (CpuinfoView {
                maxmhz: khz_line_to_mhz(max_line@) as i32,
                minmhz: khz_line_to_mhz(min_line@) as i32,
                ..old(self)@
            }),
    {
        freqlimit(max_line, &mut self.maxmhz);
        freqlimit(min_line, &mut self.minmhz);
    }

    /// Adds the cache of level `level`, number `instance`, whose copies have
    /// `size_k` KiB each; each different list among `shared_lists` is one copy.
    fn add_cache(&mut self, level: i32, instance: i32, size_k: i32, shared_lists: &Vec<String>)
        requires
            shared_lists@.len() <= i32::MAX,
            i32::MIN <= size_k * distinct_count(shared_lists@) <= i32::MAX,
        ensures
            final(self)@ == (CpuinfoView {
                cache: old(self)@.cache.push(
                    cache_entry(level, instance, size_k, distinct_count(shared_lists@) as int),
                ),
                ..old(self)@
            }),
    {
        let multiply = count_distinct(shared_lists);
        proof {
            if multiply > 0 {
                if size_k >= 0 {
                    assert(size_k <= size_k * multiply) by (nonlinear_arith)
                        requires
                            size_k >= 0,
                            multiply >= 1,
                    ;
                } else {
                    assert(size_k * multiply <= size_k) by (nonlinear_arith)
                        requires
                            size_k < 0,
                            multiply >= 1,
                    ;
                }
            }
        }
        let copies = multiply as i32;
        let mut text = decimal_i64(size_k as i64);
        text.push('x');
        let mut c = decimal_i64(copies as i64);
        text.append(&mut c);
        proof {
            reveal_strlit("x");
            assert(text@ =~= decimal(size_k as int) + "x"@ + decimal(multiply as int));
        }
        let entry = Cache {
            level: level,
            instance: instance,
            size_in_k: size_k * copies,
            physical_memory: Some(string_of(&text)),
        };
        assert(entry@ == cache_entry(level, instance, size_k, multiply as int));
        let ghost old_cache = self.cache@;
        self.cache.push(entry);
        assert(cache_views(self.cache@) =~= cache_views(old_cache).push(entry@));
    }

    /// The model name, once a line has given it.
    pub fn modelname(&self) -> (r: Option<&String>)
        ensures
            (match r {
                Some(s) => self@.modelname == Some(s@),
                None => self@.modelname is None,
            }),
    {
        self.modelname.as_ref()
    }

    /// The word size in bits (0 while unknown).
    pub fn architecture(&self) -> (r: i32)
        ensures
            r == self@.architecture,
    {
        self.architecture
    }

    /// The number of cores.
    pub fn cores(&self) -> (r: i32)
        ensures
            r == self@.cores,
    {
        self.cores
    }

    /// The number of threads (siblings).
    pub fn threads(&self) -> (r: i32)
        ensures
            r == self@.threads,
    {
        self.threads
    }

    /// The maximum frequency in megahertz.
    pub fn maxmhz(&self) -> (r: i32)
        ensures
            r == self@.maxmhz,
    {
        self.maxmhz
    }

    /// The minimum frequency in megahertz.
    pub fn minmhz(&self) -> (r: i32)
        ensures
            r == self@.minmhz,
    {
        self.minmhz
    }

    /// The clock speed of each processor thread, in whole megahertz.
    pub fn cpufreq(&self) -> (r: &Vec<i32>)
        ensures
            r@ == self@.cpufreq,
    {
        &self.cpufreq
    }

    /// The caches, in the order they were added.
    pub fn caches(&self) -> (r: &Vec<Cache>)
        ensures
            cache_views(r@) == self@.cache,
    {
        &self.cache
    }
}

/// The text of a cache's physical memory holds exactly its two numbers: split
/// at `x`, it gives the size of one copy and the number of copies, each of
/// which reads back as the number it was written from.
pub proof fn lemma_physical_memory_reads_back(level: i32, instance: i32, size_k: i32, copies: int)
    ensures
        ({
            let text = cache_entry(level, instance, size_k, copies).physical_memory.unwrap();
            let parts = split_on(text, 'x');
            &&& parts.len() == 2
            &&& crate::number::parse_int(parts[0]) == Some(size_k as int)
            &&& crate::number::parse_int(parts[1]) == Some(copies)
        }),
{
    reveal_strlit("x");
    let a = decimal(size_k as int);
    let b = decimal(copies);
    crate::number::lemma_decimal_chars(size_k as int);
    crate::number::lemma_decimal_chars(copies);
    assert forall|i: int| 0 <= i < a.len() implies a[i] != 'x' by {
        assert(crate::number::is_digit(a[i]) || a[i] == '-');
    }
    assert forall|i: int| 0 <= i < b.len() implies b[i] != 'x' by {
        assert(crate::number::is_digit(b[i]) || b[i] == '-');
    }
    assert("x"@ =~= seq!['x']);
    crate::text::lemma_split_on_pair(a, b, 'x');
    crate::number::lemma_decimal_roundtrip(size_k as int);
    crate::number::lemma_decimal_roundtrip(copies);
}

impl Cpuinfo {
    /// Whether `scan_cpuinfo` can take `lines`: each line can be taken at the
    /// place where it stands.
    pub fn lines_ok(lines: &Vec<String>) -> (r: bool)
        ensures
            r == lines_ok(string_views(lines@)),
    {
        let ghost lv = string_views(lines@);
        let mut count: i32 = 0;
        for i in 0..lines.len()
            invariant
                lv == string_views(lines@),
                count == header_count(i as int),
                forall|j: int| 0 <= j < i ==> speed_line_ok(#[trigger] lv[j], header_count(j)),
        {
            assert(lv[i as int] == lines@[i as int]@);
            if !Cpuinfo::speed_line_ok(lines[i].as_str(), count) {
                return false;
            }
            if count < HEADER_LINES {
                count = count + 1;
            }
        }
        true
    }

    /// Takes the lines of /proc/cpuinfo, in order from the first.
    pub fn scan_cpuinfo(&mut self, lines: &Vec<String>)
        requires
            lines_ok(string_views(lines@)),
        ensures
            final(self)@ == scan_lines(old(self)@, string_views(lines@)),
    {
        let ghost v0 = self@;
        let ghost lv = string_views(lines@);
        let mut count: i32 = 0;
        assert(lv.take(0) =~= Seq::<Seq<char>>::empty());
        for i in 0..lines.len()
            invariant
                lv == string_views(lines@),
                lines_ok(lv),
                count == header_count(i as int),
                self@ == scan_lines(v0, lv.take(i as int)),
        {
            assert(lv.take(i + 1).drop_last() =~= lv.take(i as int));
            assert(lv.take(i + 1).last() == lines@[i as int]@);
            assert(speed_line_ok(lv[i as int], header_count(i as int)));
            count = self.basic_speed_info(lines[i].clone(), count);
        }
        assert(lv.take(lines.len() as int) =~= lv);
    }
}

/// The name of a cache directory entry: its path without the cache
/// directory.
pub open spec fn cache_name(path: Seq<char>) -> Seq<char> {
    remove_all(path, cache_dir())
}

/// How many sharing lists are read for a cache: one per thread.
pub open spec fn thread_lists(threads: i32) -> int {
    if threads > 0 {
        threads as int
    } else {
        0
    }
}

/// What a cache entry needs, unless it is `uevent`: its level file, the
/// number in its name and its size file can be read, there is one sharing
/// list per thread, and the total size fits in an `i32`.
pub open spec fn cache_inputs_ok(
    v: CpuinfoView,
    path: Seq<char>,
    size_line: Seq<char>,
    level_line: Seq<char>,
    shared_lists: Seq<String>,
) -> bool {
    cache_name(path) != "uevent"@ ==> {
        &&& parse_i32_spec(level_line) is Some
        &&& parse_i32_spec(remove_all(cache_name(path), "index"@)) is Some
        &&& parse_i32_spec(remove_all(size_line, "K"@)) is Some
        &&& shared_lists.len() == thread_lists(v.threads)
        &&& i32::MIN <= parse_i32_spec(remove_all(size_line, "K"@)).unwrap() * distinct_count(
            shared_lists,
        ) <= i32::MAX
    }
}

/// What a cache directory entry does: `uevent` changes nothing; any other
/// entry adds the cache whose level, number, size and copies its files give.
pub open spec fn cache_step(
    v: CpuinfoView,
    path: Seq<char>,
    size_line: Seq<char>,
    level_line: Seq<char>,
    shared_lists: Seq<String>,
) -> CpuinfoView {
    if cache_name(path) == "uevent"@ {
        v
    } else {
        CpuinfoView {
            cache: v.cache.push(
                cache_entry(
                    parse_i32_spec(level_line).unwrap(),
                    parse_i32_spec(remove_all(cache_name(path), "index"@)).unwrap(),
                    parse_i32_spec(remove_all(size_line, "K"@)).unwrap(),
                    distinct_count(shared_lists) as int,
                ),
            ),
            ..v
        }
    }
}

impl Cpuinfo {
    /// Whether `cpu_cache` can take the entry at `path` with these files.
    pub fn cache_inputs_ok(
        &self,
        path: &str,
        size_line: &str,
        level_line: &str,
        shared_lists: &Vec<String>,
    ) -> (r: bool)
        ensures
            r == cache_inputs_ok(self@, path@, size_line@, level_line@, shared_lists@),
    {
        let indexname = cache_index_name(path);
        if !is_cache_index(indexname.as_str()) {
            return true;
        }
        let level = crate::number::parse_i32(level_line);
        let instance = cache_instance(indexname.as_str());
        let size = cache_size_k(size_line);
        if level.is_none() || instance.is_none() || size.is_none() {
            return false;
        }
        let wanted: usize = if self.threads > 0 {
            self.threads as usize
        } else {
            0
        };
        if shared_lists.len() != wanted {
            return false;
        }
        let copies = count_distinct(shared_lists) as i64;
        let sz = size.unwrap() as i64;
        assert(sz * copies <= 0x8000_0000 * 0x8000_0000) by (nonlinear_arith)
            requires
                -0x8000_0000 <= sz < 0x8000_0000,
                0 <= copies < 0x8000_0000,
        ;
        assert(-0x8000_0000 * 0x8000_0000 <= sz * copies) by (nonlinear_arith)
            requires
                -0x8000_0000 <= sz < 0x8000_0000,
                0 <= copies < 0x8000_0000,
        ;
        let total = sz * copies;
        total >= i32::MIN as i64 && total <= i32::MAX as i64
    }

    /// Takes the cache directory entry at `path`: for `uevent` nothing
    /// changes; for any other entry, the cache is added whose level is the
    /// first line of its `level` file, whose number is in its name, whose
    /// copies have the size of its `size` file's first line, and whose copies
    /// are the different lists among `shared_lists`, which holds for each
    /// processor thread the processors that share the cache with it.
    pub fn cpu_cache(
        &mut self,
        path: &str,
        size_line: &str,
        level_line: &str,
        shared_lists: &Vec<String>,
    )
        requires
            cache_inputs_ok(old(self)@, path@, size_line@, level_line@, shared_lists@),
        ensures
            final(self)@ == cache_step(old(self)@, path@, size_line@, level_line@, shared_lists@),
            cache_name(path@) == "uevent"@ ==> final(self)@ == old(self)@,
            final(self)@.modelname == old(self)@.modelname,
            final(self)@.architecture == old(self)@.architecture,
            final(self)@.cores == old(self)@.cores,
            final(self)@.threads == old(self)@.threads,
            final(self)@.maxmhz == old(self)@.maxmhz,
            final(self)@.minmhz == old(self)@.minmhz,
            final(self)@.cpufreq == old(self)@.cpufreq,
            old(self)@.cache.is_prefix_of(final(self)@.cache),
            final(self)@.cache.len() <= old(self)@.cache.len() + 1,
    {
        let indexname = cache_index_name(path);
        if !is_cache_index(indexname.as_str()) {
            return;
        }
        let level = crate::number::parse_i32(level_line).unwrap();
        let instance = cache_instance(indexname.as_str()).unwrap();
        let size_k = cache_size_k(size_line).unwrap();
        let ghost before = self@;
        self.add_cache(level, instance, size_k, shared_lists);
        assert(self@.cache.take(before.cache.len() as int) =~= before.cache);
    }
}

} // verus!
