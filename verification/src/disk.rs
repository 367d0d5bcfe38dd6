//! Disk information: disks and their partitions as /sys/block lists them,
//! with the sizes, identifiers and mount points that /sys, udev and
//! /proc/mounts give.
use vstd::prelude::*;

use crate::cpu::div_trunc;
use crate::keyed::NamedList;
use vstd::relations::sorted_by;

use crate::text::{
    append_str, chars_of, contains_str, has_sub, nth_piece, remove_all, remove_str, sort_lex,
    split_on, string_of, string_views, lex_order,
};

verus! {

broadcast use vstd::seq_lib::group_seq_properties;

// ----------------------------------------------------------------------------
// Regular expressions
// ----------------------------------------------------------------------------

/// What `regex::Regex::new(pattern)` followed by `replace_all(haystack, rep)`
/// gives: `None` where the pattern is refused, else the text with every match
/// replaced.
pub uninterp spec fn regex_replace_all(pattern: Seq<char>, haystack: Seq<char>, rep: Seq<char>) -> Option<Seq<char>>;

/// Compiles `pattern` with `regex::Regex::new` and, when that succeeds,
/// replaces every match in `haystack` by `rep` with `Regex::replace_all`.
/// The contract claims only that the result is a function of the three
/// texts (`regex_replace_all`); what the pattern language means is left to
/// the regex crate.
#[verifier::external_body]
fn regex_replace(pattern: &str, haystack: &str, rep: &str) -> (r: Option<String>)
    ensures
        (match r {
            Some(s) => regex_replace_all(pattern@, haystack@, rep@) == Some(s@),
            None => regex_replace_all(pattern@, haystack@, rep@) is None,
        }),
{
    match regex::Regex::new(pattern) {
        Ok(re) => Some(re.replace_all(haystack, rep).into_owned()),
        Err(_) => None,
    }
}

// ----------------------------------------------------------------------------
// Disks
// ----------------------------------------------------------------------------

/// The directory that lists the block devices.
pub open spec fn block_dir() -> Seq<char> {
    "/sys/block/"@
}

/// The name of a disk: its path without the block directory.
pub fn disk_name(path_disk: &str) -> (r: String)
    ensures
        r@ == remove_all(path_disk@, block_dir()),
{
    proof {
        reveal_strlit("/sys/block/");
    }
    let p = chars_of(path_disk);
    string_of(&remove_str(&p, "/sys/block/"))
}

/// The path of the file that gives a disk's size in 512-byte sectors.
pub fn disk_size_path(path_disk: &str) -> (r: String)
    ensures
        r@ == path_disk@ + "/size"@,
{
    let mut p = chars_of(path_disk);
    append_str(&mut p, "/size");
    string_of(&p)
}

/// Megabytes (MiB, rounded toward zero) in a number of 512-byte sectors.
pub open spec fn sectors_to_mb(sectors: int) -> int {
    div_trunc(div_trunc(sectors * 512, 1024), 1024)
}

/// The size in MiB of a disk of `sectors` 512-byte sectors.
pub fn disk_size_mb(sectors: i64) -> (r: i64)
    requires
        i64::MIN <= sectors * 512 <= i64::MAX,
    ensures
        r == sectors_to_mb(sectors as int),
{
    sectors * 512 / 1024 / 1024
}

/// The pattern that strips a disk's directory from the paths of its entries:
/// the disk's path, a `/` and a word boundary.
pub open spec fn partition_pattern(path_disk: Seq<char>) -> Seq<char> {
    path_disk + "/\\b"@
}

/// The entries of a disk's directory with the disk's directory stripped by
/// `pattern`, in order. `None` when the pattern is refused for one of them.
pub open spec fn stripped_entries(pattern: Seq<char>, entries: Seq<Seq<char>>) -> Option<
    Seq<Seq<char>>,
>
    decreases entries.len(),
{
    if entries.len() == 0 {
        Some(Seq::empty())
    } else {
        match (
            stripped_entries(pattern, entries.drop_last()),
            regex_replace_all(pattern, entries.last(), Seq::empty()),
        ) {
            (Some(prev), Some(stripped)) => Some(prev.push(stripped)),
            _ => None,
        }
    }
}

/// The texts among `stripped` that hold the disk's name, in order.
pub open spec fn names_holding(stripped: Seq<Seq<char>>, name: Seq<char>) -> Seq<Seq<char>>
    decreases stripped.len(),
{
    if stripped.len() == 0 {
        Seq::empty()
    } else {
        let prev = names_holding(stripped.drop_last(), name);
        if has_sub(stripped.last(), name) {
            prev.push(stripped.last())
        } else {
            prev
        }
    }
}

/// The entries of a disk's directory that name partitions, with the disk's
/// directory stripped: those that hold the disk's name once stripped. `None`
/// when the pattern is refused for one of them.
pub open spec fn partition_candidates(
    pattern: Seq<char>,
    entries: Seq<Seq<char>>,
    name: Seq<char>,
) -> Option<Seq<Seq<char>>> {
    match stripped_entries(pattern, entries) {
        Some(s) => Some(names_holding(s, name)),
        None => None,
    }
}

/// The partition names among the stripped entries: those that hold the
/// disk's name `name`, in lexicographic order.
pub fn keep_partition_names(stripped: &Vec<String>, name: &str) -> (r: Vec<String>)
    ensures
        string_views(r@) == names_holding(string_views(stripped@), name@).sort_by(lex_order()),
        sorted_by(string_views(r@), lex_order()),
        forall|x: Seq<char>|
            #[trigger] string_views(r@).to_multiset().count(x) == if has_sub(x, name@) {
                string_views(stripped@).to_multiset().count(x)
            } else {
                0
            },
{
    proof {
        lemma_kept_names(string_views(stripped@), name@);
    }
    let mut kept: Vec<String> = Vec::new();
    let n = stripped.len();
    let ghost sv = string_views(stripped@);
    assert(sv.take(0) =~= Seq::<Seq<char>>::empty());
    for i in 0..n
        invariant
            n == stripped.len(),
            sv == string_views(stripped@),
            names_holding(sv.take(i as int), name@) == string_views(kept@),
    {
        assert(sv.take(i + 1).drop_last() =~= sv.take(i as int));
        assert(sv.take(i + 1).last() == stripped@[i as int]@);
        let sc = chars_of(stripped[i].as_str());
        if contains_str(&sc, name) {
            let ghost before = string_views(kept@);
            kept.push(stripped[i].clone());
            assert(string_views(kept@) =~= before.push(sc@));
        }
    }
    assert(sv.take(n as int) =~= sv);
    sort_lex(&kept)
}

/// The names kept from the stripped entries are exactly those that hold the
/// disk's name, each as many times as it stands among the entries.
pub proof fn lemma_names_holding_counts(stripped: Seq<Seq<char>>, name: Seq<char>)
    ensures
        forall|x: Seq<char>|
            #[trigger] names_holding(stripped, name).to_multiset().count(x) == if has_sub(x, name) {
                stripped.to_multiset().count(x)
            } else {
                0
            },
    decreases stripped.len(),
{
    broadcast use vstd::multiset::group_multiset_axioms;

    if stripped.len() == 0 {
        assert(names_holding(stripped, name) =~= Seq::<Seq<char>>::empty());
        assert(stripped =~= Seq::<Seq<char>>::empty());
    } else {
        let d = stripped.drop_last();
        let y = stripped.last();
        lemma_names_holding_counts(d, name);
        assert(stripped =~= d.push(y));
        d.to_multiset_ensures();
        names_holding(d, name).to_multiset_ensures();
    }
}

/// The kept partition names, in lexicographic order: each stripped entry
/// that holds the disk's name, as many times as it stands among them, and no
/// other text.
pub proof fn lemma_kept_names(stripped: Seq<Seq<char>>, name: Seq<char>)
    ensures
        sorted_by(names_holding(stripped, name).sort_by(lex_order()), lex_order()),
        forall|x: Seq<char>|
            #[trigger] names_holding(stripped, name).sort_by(lex_order()).to_multiset().count(x)
                == if has_sub(x, name) {
                stripped.to_multiset().count(x)
            } else {
                0
            },
{
    let h = names_holding(stripped, name);
    crate::text::lemma_lex_total_order();
    h.lemma_sort_by_ensures(lex_order());
    lemma_names_holding_counts(stripped, name);
}

/// The partitions of disk `name` at `path_disk`, from the paths of the
/// entries of its directory, in lexicographic order: each entry with the
/// disk's directory stripped, kept when it holds the disk's name. `None` when
/// the regex crate refuses the stripping pattern.
pub fn partition_names(path_disk: &str, name: &str, entries: &Vec<String>) -> (r: Option<
    Vec<String>,
>)
    ensures
        (match r {
            Some(v) => partition_candidates(
                partition_pattern(path_disk@),
                string_views(entries@),
                name@,
            ) matches Some(c) && string_views(v@) == c.sort_by(lex_order()),
            None => partition_candidates(
                partition_pattern(path_disk@),
                string_views(entries@),
                name@,
            ) is None,
        }),
{
    let mut pat = chars_of(path_disk);
    append_str(&mut pat, "/\\b");
    let pattern = string_of(&pat);
    let mut stripped_all: Vec<String> = Vec::new();
    let n = entries.len();
    let ghost ev = string_views(entries@);
    proof {
        assert(ev.take(0) =~= Seq::<Seq<char>>::empty());
    }
    for i in 0..n
        invariant
            n == entries.len(),
            ev == string_views(entries@),
            pattern@ == partition_pattern(path_disk@),
            stripped_entries(pattern@, ev.take(i as int)) == Some(string_views(stripped_all@)),
    {
        let stripped = regex_replace(pattern.as_str(), entries[i].as_str(), "");
        proof {
            reveal_strlit("");
            assert(""@ =~= Seq::<char>::empty());
        }
        assert(ev.take(i + 1).drop_last() =~= ev.take(i as int));
        assert(ev.take(i + 1).last() == entries@[i as int]@);
        match stripped {
            Some(s) => {
                let ghost before = string_views(stripped_all@);
                let ghost sv = s@;
                stripped_all.push(s);
                assert(string_views(stripped_all@) =~= before.push(sv));
            },
            None => {
                proof {
                    lemma_stripping_fails(pattern@, ev, i as int + 1);
                }
                return None;
            },
        }
    }
    assert(ev.take(n as int) =~= ev);
    Some(keep_partition_names(&stripped_all, name))
}

/// Once the pattern is refused for a prefix of the entries, it is refused
/// for all of them.
proof fn lemma_stripping_fails(pattern: Seq<char>, entries: Seq<Seq<char>>, k: int)
    requires
        0 <= k <= entries.len(),
        stripped_entries(pattern, entries.take(k)) is None,
    ensures
        stripped_entries(pattern, entries) is None,
    decreases entries.len() - k,
{
    if k < entries.len() {
        assert(entries.take(k + 1).drop_last() =~= entries.take(k));
        lemma_stripping_fails(pattern, entries, k + 1);
    } else {
        assert(entries.take(k) =~= entries);
    }
}

/// The path of the file that gives a partition's size in 512-byte sectors.
pub fn partition_size_path(path_disk: &str, partition: &str) -> (r: String)
    ensures
        r@ == path_disk@ + "/"@ + partition@ + "/size"@,
{
    let mut p = chars_of(path_disk);
    append_str(&mut p, "/");
    append_str(&mut p, partition);
    append_str(&mut p, "/size");
    string_of(&p)
}

/// The path under which udev knows a partition.
pub fn partition_syspath(name: &str, partition: &str) -> (r: String)
    ensures
        r@ == block_dir() + name@ + "/"@ + partition@,
{
    let mut p = chars_of("/sys/block/");
    append_str(&mut p, name);
    append_str(&mut p, "/");
    append_str(&mut p, partition);
    string_of(&p)
}

/// The text stored when udev knows no file-system UUID for a partition.
pub open spec fn missing_uuid() -> Seq<char> {
    "Error / does not exist"@
}

/// The UUID text of a partition, from udev's `ID_FS_UUID` property.
pub fn partition_uuid(value: Option<String>) -> (r: String)
    ensures
        r@ == (match value {
            Some(v) => v@,
            None => missing_uuid(),
        }),
{
    match value {
        Some(v) => v,
        None => string_of(&chars_of("Error / does not exist")),
    }
}

// ----------------------------------------------------------------------------
// Partitions
// ----------------------------------------------------------------------------

/// One partition of a disk.
#[derive(Debug)]
pub struct Partitioninfo {
    size_in_mb: i64,
    used_in_mb: Option<i64>,
    free_in_mb: Option<i64>,
    uuid: String,
    mountpoint: Option<String>,
    filesystemtype: Option<String>,
}

/// What a `Partitioninfo` holds.
pub struct PartitionView {
    pub size_in_mb: i64,
    pub used_in_mb: Option<i64>,
    pub free_in_mb: Option<i64>,
    pub uuid: Seq<char>,
    pub mountpoint: Option<Seq<char>>,
    pub filesystemtype: Option<Seq<char>>,
}

impl View for Partitioninfo {
    type V = PartitionView;

    closed spec fn view(&self) -> PartitionView {
        PartitionView {
            size_in_mb: self.size_in_mb,
            used_in_mb: self.used_in_mb,
            free_in_mb: self.free_in_mb,
            uuid: self.uuid@,
            mountpoint: crate::cpu::opt_view(self.mountpoint),
            filesystemtype: crate::cpu::opt_view(self.filesystemtype),
        }
    }
}

/// MiB (rounded down) in `blocks` blocks of `block_size` bytes.
pub open spec fn space_mb_spec(block_size: int, blocks: int) -> int {
    block_size * blocks / 1024 / 1024
}

/// MiB (rounded down) in `blocks` blocks of `block_size` bytes.
pub fn space_mb(block_size: u64, blocks: u64) -> (r: i64)
    requires
        block_size * blocks <= u64::MAX,
    ensures
        r == space_mb_spec(block_size as int, blocks as int),
        r >= 0,
{
    let bytes = block_size * blocks;
    (bytes / 1024 / 1024) as i64
}

/// A partition once its file system's figures are known: the space used and
/// free, where it is mounted and its file-system type.
pub open spec fn mounted(
    p: PartitionView,
    mountpoint: Seq<char>,
    fstype: Seq<char>,
    block_size: int,
    blocks: int,
    blocks_available: int,
) -> PartitionView {
    PartitionView {
        used_in_mb: Some(
            (space_mb_spec(block_size, blocks) - space_mb_spec(block_size, blocks_available)) as i64,
        ),
        free_in_mb: Some(space_mb_spec(block_size, blocks_available) as i64),
        mountpoint: Some(mountpoint),
        filesystemtype: Some(fstype),
        ..p
    }
}

/// Recording a mount stores, in MiB rounded down, the space available
/// (`block_size * blocks_available`) as the free space and the rest of the
/// file system (`block_size * blocks`) as the used space, whichever is larger;
/// the mount point and type are the given ones, and size and UUID stay.
pub proof fn lemma_mounted_figures(
    p: PartitionView,
    mountpoint: Seq<char>,
    fstype: Seq<char>,
    block_size: u64,
    blocks: u64,
    blocks_available: u64,
)
    requires
        block_size * blocks <= u64::MAX,
        block_size * blocks_available <= u64::MAX,
    ensures
        ({
            let q = mounted(
                p,
                mountpoint,
                fstype,
                block_size as int,
                blocks as int,
                blocks_available as int,
            );
            &&& q.free_in_mb == Some(((block_size * blocks_available) / 1048576) as i64)
            &&& q.used_in_mb == Some(
                ((block_size * blocks) / 1048576 - (block_size * blocks_available) / 1048576) as i64,
            )
            &&& q.mountpoint == Some(mountpoint)
            &&& q.filesystemtype == Some(fstype)
            &&& q.size_in_mb == p.size_in_mb
            &&& q.uuid == p.uuid
        }),
{
    let tb = block_size * blocks;
    let ab = block_size * blocks_available;
    assert(0 <= tb && 0 <= ab);
    assert(tb / 1024 / 1024 == tb / 1048576);
    assert(ab / 1024 / 1024 == ab / 1048576);
}

impl Partitioninfo {
    /// A partition of `size_in_mb` with UUID text `uuid`, with no file-system
    /// figures yet.
    pub fn unmounted(size_in_mb: i64, uuid: String) -> (r: Partitioninfo)
        ensures
            r@ == (PartitionView {
                size_in_mb: size_in_mb,
                used_in_mb: None,
                free_in_mb: None,
                uuid: uuid@,
                mountpoint: None,
                filesystemtype: None,
            }),
    {
        Partitioninfo {
            size_in_mb,
            used_in_mb: None,
            free_in_mb: None,
            uuid,
            mountpoint: None,
            filesystemtype: None,
        }
    }

    /// The size as the partition's `size` file gives it.
    pub fn size_in_mb(&self) -> (r: i64)
        ensures
            r == self@.size_in_mb,
    {
        self.size_in_mb
    }

    /// The space used, in MiB, once known.
    pub fn used_in_mb(&self) -> (r: Option<i64>)
        ensures
            r == self@.used_in_mb,
    {
        self.used_in_mb
    }

    /// The space free, in MiB, once known.
    pub fn free_in_mb(&self) -> (r: Option<i64>)
        ensures
            r == self@.free_in_mb,
    {
        self.free_in_mb
    }

    /// The file-system UUID text.
    pub fn uuid(&self) -> (r: &String)
        ensures
            r@ == self@.uuid,
    {
        &self.uuid
    }

    /// Where the partition is mounted, once known.
    pub fn mountpoint(&self) -> (r: Option<&String>)
        ensures
            (match r {
                Some(s) => self@.mountpoint == Some(s@),
                None => self@.mountpoint is None,
            }),
    {
        self.mountpoint.as_ref()
    }

    /// The file-system type, once known.
    pub fn filesystemtype(&self) -> (r: Option<&String>)
        ensures
            (match r {
                Some(s) => self@.filesystemtype == Some(s@),
                None => self@.filesystemtype is None,
            }),
    {
        self.filesystemtype.as_ref()
    }
}

/// The partitions of a disk, by name.
#[derive(Debug)]
pub struct Partitionsinfo {
    partitions: NamedList<Partitioninfo>,
}

impl View for Partitionsinfo {
    type V = Map<Seq<char>, PartitionView>;

    closed spec fn view(&self) -> Map<Seq<char>, PartitionView> {
        self.partitions@
    }
}

impl Partitionsinfo {
    /// No partitions.
    pub fn new() -> (r: Partitionsinfo)
        ensures
            r@ == Map::<Seq<char>, PartitionView>::empty(),
    {
        Partitionsinfo { partitions: NamedList::new() }
    }

    /// Stores `info` under `name`, in place of any partition of that name.
    pub fn insert(&mut self, name: String, info: Partitioninfo)
        ensures
            final(self)@ == old(self)@.insert(name@, info@),
    {
        self.partitions.insert(name, info);
    }

    /// The partition called `name`, if any.
    pub fn get(&self, name: &str) -> (r: Option<&Partitioninfo>)
        ensures
            (match r {
                Some(p) => self@.contains_key(name@) && self@[name@] == p@,
                None => !self@.contains_key(name@),
            }),
    {
        self.partitions.get(name)
    }

    /// Whether there is a partition called `name`.
    pub fn contains(&self, name: &str) -> (r: bool)
        ensures
            r == self@.contains_key(name@),
    {
        self.partitions.contains(name)
    }

    /// The partitions, each name with its partition.
    pub fn entries(&self) -> (r: &Vec<(String, Partitioninfo)>)
        ensures
            crate::keyed::named_map(r@) == self@,
            crate::keyed::distinct_names(r@),
    {
        self.partitions.entries()
    }

    /// Records that partition `name` is mounted at `mountpoint` with file
    /// system `fstype`, whose blocks of `block_size` bytes number `blocks`,
    /// of which `blocks_available` are available.
    pub fn record_mount(
        &mut self,
        name: &str,
        mountpoint: String,
        fstype: String,
        block_size: u64,
        blocks: u64,
        blocks_available: u64,
    )
        requires
            old(self)@.contains_key(name@),
            block_size * blocks <= u64::MAX,
            block_size * blocks_available <= u64::MAX,
        ensures
            final(self)@ == old(self)@.insert(
                name@,
                mounted(
                    old(self)@[name@],
                    mountpoint@,
                    fstype@,
                    block_size as int,
                    blocks as int,
                    blocks_available as int,
                ),
            ),
            final(self)@[name@].free_in_mb == Some(
                ((block_size * blocks_available) / 1048576) as i64,
            ),
            final(self)@[name@].used_in_mb == Some(
                ((block_size * blocks) / 1048576 - (block_size * blocks_available) / 1048576) as i64,
            ),
    {
        proof {
            lemma_mounted_figures(
                old(self)@[name@],
                mountpoint@,
                fstype@,
                block_size,
                blocks,
                blocks_available,
            );
        }
        let total = space_mb(block_size, blocks);
        let avail = space_mb(block_size, blocks_available);
        let used = total - avail;
        let mut p = self.partitions.take(name).unwrap();
        p.used_in_mb = Some(used);
        p.free_in_mb = Some(avail);
        p.mountpoint = Some(mountpoint);
        p.filesystemtype = Some(fstype);
        let key = string_of(&chars_of(name));
        self.partitions.insert(key, p);
        assert(self@ =~= old(self)@.insert(
            name@,
            mounted(
                old(self)@[name@],
                mountpoint@,
                fstype@,
                block_size as int,
                blocks as int,
                blocks_available as int,
            ),
        ));
    }
}

// ----------------------------------------------------------------------------
// /proc/mounts
// ----------------------------------------------------------------------------

/// The names among `names` that the mount line holds, in order.
pub open spec fn names_in_line(line: Seq<char>, names: Seq<Seq<char>>) -> Seq<Seq<char>>
    decreases names.len(),
{
    if names.len() == 0 {
        Seq::empty()
    } else {
        let prev = names_in_line(line, names.drop_last());
        if has_sub(line, names.last()) {
            prev.push(names.last())
        } else {
            prev
        }
    }
}

/// The partition names among `names` that the line of /proc/mounts holds,
/// in order.
pub fn mounted_names(line: &str, names: &Vec<String>) -> (r: Vec<String>)
    ensures
        string_views(r@) == names_in_line(line@, string_views(names@)),
{
    let l = chars_of(line);
    let mut r: Vec<String> = Vec::new();
    let ghost nv = string_views(names@);
    assert(nv.take(0) =~= Seq::<Seq<char>>::empty());
    for i in 0..names.len()
        invariant
            nv == string_views(names@),
            l@ == line@,
            string_views(r@) == names_in_line(line@, nv.take(i as int)),
    {
        assert(nv.take(i + 1).drop_last() =~= nv.take(i as int));
        assert(nv.take(i + 1).last() == names@[i as int]@);
        if contains_str(&l, names[i].as_str()) {
            let ghost before = string_views(r@);
            r.push(names[i].clone());
            assert(string_views(r@) =~= before.push(names@[i as int]@));
        }
    }
    assert(nv.take(names.len() as int) =~= nv);
    r
}

/// Field `k` (from 0) of a line split on single spaces, if there is one.
pub open spec fn space_field(line: Seq<char>, k: int) -> Option<Seq<char>> {
    if k < split_on(line, ' ').len() {
        Some(split_on(line, ' ')[k])
    } else {
        None
    }
}

/// The mount point (second field) and the file-system type (third field) of
/// a line of /proc/mounts, each if the line has it.
pub fn mount_fields(line: &str) -> (r: (Option<String>, Option<String>))
    ensures
        (match r.0 {
            Some(m) => space_field(line@, 1) == Some(m@),
            None => space_field(line@, 1) is None,
        }),
        (match r.1 {
            Some(f) => space_field(line@, 2) == Some(f@),
            None => space_field(line@, 2) is None,
        }),
{
    let l = chars_of(line);
    let m = match nth_piece(&l, ' ', 1) {
        Some(p) => Some(string_of(&p)),
        None => None,
    };
    let f = match nth_piece(&l, ' ', 2) {
        Some(p) => Some(string_of(&p)),
        None => None,
    };
    (m, f)
}

/// A partition that a line of /proc/mounts names, with the mount point and
/// file-system type that the line gives, each if the line has it.
#[derive(Debug)]
pub struct MountRequest {
    pub partition: String,
    pub mountpoint: Option<String>,
    pub fstype: Option<String>,
}

/// What a `MountRequest` holds.
pub struct MountRequestView {
    pub partition: Seq<char>,
    pub mountpoint: Option<Seq<char>>,
    pub fstype: Option<Seq<char>>,
}

impl View for MountRequest {
    type V = MountRequestView;

    open spec fn view(&self) -> MountRequestView {
        MountRequestView {
            partition: self.partition@,
            mountpoint: crate::cpu::opt_view(self.mountpoint),
            fstype: crate::cpu::opt_view(self.fstype),
        }
    }
}

/// The views of a sequence of mount requests.
pub open spec fn request_views(v: Seq<MountRequest>) -> Seq<MountRequestView> {
    v.map_values(|r: MountRequest| r@)
}

/// The mounts that one line of /proc/mounts names: one for each partition
/// name that the line holds, in the order of `names`.
pub open spec fn line_requests(line: Seq<char>, names: Seq<Seq<char>>) -> Seq<MountRequestView> {
    names_in_line(line, names).map_values(
        |p: Seq<char>|
            MountRequestView {
                partition: p,
                mountpoint: space_field(line, 1),
                fstype: space_field(line, 2),
            },
    )
}

/// The mounts that the lines of /proc/mounts name, line by line.
pub open spec fn mount_plan(lines: Seq<Seq<char>>, names: Seq<Seq<char>>) -> Seq<MountRequestView>
    decreases lines.len(),
{
    if lines.len() == 0 {
        Seq::empty()
    } else {
        mount_plan(lines.drop_last(), names) + line_requests(lines.last(), names)
    }
}

/// The partitions that the mounts name, in order.
pub open spec fn plan_partitions(plan: Seq<MountRequestView>) -> Seq<Seq<char>> {
    plan.map_values(|r: MountRequestView| r.partition)
}

/// Every mount names a known partition and gives a mount point and a type,
/// there are figures for each, and their products fit in a `u64`.
pub open spec fn mounts_ok(
    m: Map<Seq<char>, PartitionView>,
    plan: Seq<MountRequestView>,
    figures: Seq<(u64, u64, u64)>,
) -> bool {
    &&& figures.len() == plan.len()
    &&& forall|i: int|
        0 <= i < plan.len() ==> {
            &&& m.contains_key(#[trigger] plan[i].partition)
            &&& plan[i].mountpoint is Some
            &&& plan[i].fstype is Some
        }
    &&& forall|i: int|
        0 <= i < figures.len() ==> {
            &&& #[trigger] figures[i].0 * figures[i].1 <= u64::MAX
            &&& figures[i].0 * figures[i].2 <= u64::MAX
        }
}

/// The partitions after the mounts are recorded in order, each with its
/// figures.
pub open spec fn apply_mounts(
    m: Map<Seq<char>, PartitionView>,
    plan: Seq<MountRequestView>,
    figures: Seq<(u64, u64, u64)>,
) -> Map<Seq<char>, PartitionView>
    decreases plan.len(),
{
    if plan.len() == 0 || figures.len() == 0 {
        m
    } else {
        let prev = apply_mounts(m, plan.drop_last(), figures.drop_last());
        let r = plan.last();
        let f = figures.last();
        prev.insert(
            r.partition,
            mounted(
                prev[r.partition],
                r.mountpoint.unwrap(),
                r.fstype.unwrap(),
                f.0 as int,
                f.1 as int,
                f.2 as int,
            ),
        )
    }
}

/// A partition's four mount fields (used, free, mount point, type) are all
/// known or all unknown.
pub open spec fn mount_fields_agree(p: PartitionView) -> bool {
    ||| p.used_in_mb is Some && p.free_in_mb is Some && p.mountpoint is Some
        && p.filesystemtype is Some
    ||| p.used_in_mb is None && p.free_in_mb is None && p.mountpoint is None
        && p.filesystemtype is None
}

/// Every partition's four mount fields are all known or all unknown.
pub open spec fn mounts_consistent(m: Map<Seq<char>, PartitionView>) -> bool {
    forall|k: Seq<char>| #[trigger] m.contains_key(k) ==> mount_fields_agree(m[k])
}

/// A partition is mounted once its mount point is known.
pub open spec fn is_mounted(p: PartitionView) -> bool {
    p.mountpoint is Some
}

/// Recording mounts keeps every partition's four mount fields all known or
/// all unknown.
pub proof fn lemma_apply_mounts_consistent(
    m: Map<Seq<char>, PartitionView>,
    plan: Seq<MountRequestView>,
    figures: Seq<(u64, u64, u64)>,
)
    requires
        mounts_consistent(m),
    ensures
        mounts_consistent(apply_mounts(m, plan, figures)),
    decreases plan.len(),
{
    if plan.len() > 0 && figures.len() > 0 {
        lemma_apply_mounts_consistent(m, plan.drop_last(), figures.drop_last());
    }
}

/// A known partition stays known; it is mounted afterwards exactly when it
/// was before or some mount names it.
proof fn lemma_apply_mounts_effect(
    m: Map<Seq<char>, PartitionView>,
    plan: Seq<MountRequestView>,
    figures: Seq<(u64, u64, u64)>,
    k: Seq<char>,
)
    requires
        figures.len() == plan.len(),
        m.contains_key(k),
    ensures
        apply_mounts(m, plan, figures).contains_key(k),
        is_mounted(apply_mounts(m, plan, figures)[k]) <==> (is_mounted(m[k]) || plan_partitions(
            plan,
        ).contains(k)),
    decreases plan.len(),
{
    if plan.len() > 0 {
        lemma_apply_mounts_effect(m, plan.drop_last(), figures.drop_last(), k);
        assert(plan_partitions(plan) =~= plan_partitions(plan.drop_last()).push(
            plan.last().partition,
        ));
    } else {
        assert(plan_partitions(plan) =~= Seq::<Seq<char>>::empty());
    }
}

/// A mount line names a partition exactly when the partition is one of
/// `names` and the line holds its name.
proof fn lemma_names_in_line(line: Seq<char>, names: Seq<Seq<char>>, k: Seq<char>)
    ensures
        names_in_line(line, names).contains(k) <==> (names.contains(k) && has_sub(line, k)),
    decreases names.len(),
{
    if names.len() > 0 {
        let d = names.drop_last();
        lemma_names_in_line(line, d, k);
        assert(names =~= d.push(names.last()));
    } else {
        assert(names_in_line(line, names) =~= Seq::<Seq<char>>::empty());
    }
}

/// The mounts name a partition of `names` exactly when some line holds its
/// name.
proof fn lemma_plan_names(lines: Seq<Seq<char>>, names: Seq<Seq<char>>, k: Seq<char>)
    requires
        names.contains(k),
    ensures
        plan_partitions(mount_plan(lines, names)).contains(k) <==> exists|j: int|
            0 <= j < lines.len() && has_sub(#[trigger] lines[j], k),
    decreases lines.len(),
{
    if lines.len() > 0 {
        let d = lines.drop_last();
        lemma_plan_names(d, names, k);
        lemma_names_in_line(lines.last(), names, k);
        let l = line_requests(lines.last(), names);
        assert(plan_partitions(l) =~= names_in_line(lines.last(), names));
        assert(plan_partitions(mount_plan(lines, names)) =~= plan_partitions(mount_plan(d, names))
            + plan_partitions(l));
        if exists|j: int| 0 <= j < lines.len() && has_sub(#[trigger] lines[j], k) {
            let j = choose|j: int| 0 <= j < lines.len() && has_sub(#[trigger] lines[j], k);
            if j < d.len() {
                assert(has_sub(d[j], k));
            }
        }
        if exists|j: int| 0 <= j < d.len() && has_sub(#[trigger] d[j], k) {
            let j = choose|j: int| 0 <= j < d.len() && has_sub(#[trigger] d[j], k);
            assert(has_sub(lines[j], k));
        }
        if has_sub(lines.last(), k) {
            assert(has_sub(lines[lines.len() - 1], k));
        }
    } else {
        assert(plan_partitions(mount_plan(lines, names)) =~= Seq::<Seq<char>>::empty());
    }
}

/// Once the partitions of `names` are known and none is mounted, recording
/// the mounts that the lines of /proc/mounts name leaves each partition of
/// `names` mounted exactly when some line holds its name, and keeps the four
/// mount fields of every partition all known or all unknown.
pub proof fn lemma_mounted_iff_named(
    m: Map<Seq<char>, PartitionView>,
    lines: Seq<Seq<char>>,
    names: Seq<Seq<char>>,
    figures: Seq<(u64, u64, u64)>,
)
    requires
        forall|k: Seq<char>| #[trigger] m.contains_key(k) ==> !is_mounted(m[k]),
        forall|i: int| 0 <= i < names.len() ==> m.contains_key(#[trigger] names[i]),
        mounts_consistent(m),
        figures.len() == mount_plan(lines, names).len(),
    ensures
        mounts_consistent(apply_mounts(m, mount_plan(lines, names), figures)),
        forall|i: int|
            0 <= i < names.len() ==> (is_mounted(
                #[trigger] apply_mounts(m, mount_plan(lines, names), figures)[names[i]],
            ) <==> exists|j: int| 0 <= j < lines.len() && has_sub(#[trigger] lines[j], names[i])),
{
    let plan = mount_plan(lines, names);
    lemma_apply_mounts_consistent(m, plan, figures);
    assert forall|i: int| 0 <= i < names.len() implies (is_mounted(
        #[trigger] apply_mounts(m, plan, figures)[names[i]],
    ) <==> exists|j: int| 0 <= j < lines.len() && has_sub(#[trigger] lines[j], names[i])) by {
        let k = names[i];
        assert(names.contains(k));
        lemma_apply_mounts_effect(m, plan, figures, k);
        lemma_plan_names(lines, names, k);
    }
}

fn clone_opt(o: &Option<String>) -> (r: Option<String>)
    ensures
        crate::cpu::opt_view(r) == crate::cpu::opt_view(*o),
{
    match o {
        Some(s) => Some(s.clone()),
        None => None,
    }
}

/// The mounts that the lines of /proc/mounts name for the partitions
/// `names`: for each line in order, each partition whose name the line holds,
/// with the line's mount point and file-system type.
pub fn mount_requests(lines: &Vec<String>, names: &Vec<String>) -> (r: Vec<MountRequest>)
    ensures
        request_views(r@) == mount_plan(string_views(lines@), string_views(names@)),
{
    let ghost lv = string_views(lines@);
    let ghost nv = string_views(names@);
    let mut out: Vec<MountRequest> = Vec::new();
    assert(lv.take(0) =~= Seq::<Seq<char>>::empty());
    assert(request_views(out@) =~= Seq::<MountRequestView>::empty());
    for i in 0..lines.len()
        invariant
            lv == string_views(lines@),
            nv == string_views(names@),
            request_views(out@) == mount_plan(lv.take(i as int), nv),
    {
        let line = lines[i].as_str();
        assert(lv[i as int] == line@);
        let matched = mounted_names(line, names);
        let (m, f) = mount_fields(line);
        let ghost base = request_views(out@);
        let ghost lr = line_requests(line@, nv);
        assert(lr.len() == matched.len());
        for j in 0..matched.len()
            invariant
                base + lr.take(j as int) == request_views(out@),
                lr == line_requests(line@, nv),
                string_views(matched@) == names_in_line(line@, nv),
                crate::cpu::opt_view(m) == space_field(line@, 1),
                crate::cpu::opt_view(f) == space_field(line@, 2),
        {
            let ghost before = request_views(out@);
            let req = MountRequest {
                partition: matched[j].clone(),
                mountpoint: clone_opt(&m),
                fstype: clone_opt(&f),
            };
            assert(string_views(matched@)[j as int] == matched@[j as int]@);
            assert(req@ == lr[j as int]);
            out.push(req);
            assert(request_views(out@) =~= before.push(req@));
            assert(lr.take(j + 1) =~= lr.take(j as int).push(lr[j as int]));
            assert(base + lr.take(j + 1) =~= (base + lr.take(j as int)).push(lr[j as int]));
        }
        assert(lr.take(matched.len() as int) =~= lr);
        assert(lv.take(i + 1).drop_last() =~= lv.take(i as int));
        assert(lv.take(i + 1).last() == line@);
    }
    assert(lv.take(lines.len() as int) =~= lv);
    out
}

// ----------------------------------------------------------------------------
// Disks and their model name
// ----------------------------------------------------------------------------

/// One disk.
#[derive(Debug)]
pub struct Diskinfo {
    modelname: String,
    size_in_mb: i64,
    partitions: Partitionsinfo,
}

/// What a `Diskinfo` holds.
pub struct DiskView {
    pub modelname: Seq<char>,
    pub size_in_mb: i64,
    pub partitions: Map<Seq<char>, PartitionView>,
}

impl View for Diskinfo {
    type V = DiskView;

    closed spec fn view(&self) -> DiskView {
        DiskView {
            modelname: self.modelname@,
            size_in_mb: self.size_in_mb,
            partitions: self.partitions@,
        }
    }
}

impl Diskinfo {
    /// The model name.
    pub fn modelname(&self) -> (r: &String)
        ensures
            r@ == self@.modelname,
    {
        &self.modelname
    }

    /// The size in MiB.
    pub fn size_in_mb(&self) -> (r: i64)
        ensures
            r == self@.size_in_mb,
    {
        self.size_in_mb
    }

    /// The partitions.
    pub fn partitions(&self) -> (r: &Partitionsinfo)
        ensures
            r@ == self@.partitions,
    {
        &self.partitions
    }
}

/// The udev property asked first for a disk's model name.
pub open spec fn model_property() -> Seq<char> {
    "ID_MODEL"@
}

/// The udev property asked when the first gives nothing.
pub open spec fn name_property() -> Seq<char> {
    "ID_NAME"@
}

/// The model name stored when udev gives neither property.
pub open spec fn missing_model() -> Seq<char> {
    "Error"@
}

/// The next udev property to ask for the model name, given the answers so
/// far: `ID_MODEL` first, `ID_NAME` when that gave nothing, then none.
pub open spec fn model_query_spec(answers: Seq<Option<Seq<char>>>) -> Option<Seq<char>> {
    if answers.len() == 0 {
        Some(model_property())
    } else if answers.len() == 1 && answers[0] is None {
        Some(name_property())
    } else {
        None
    }
}

/// The model name that the answers give: the first property that udev
/// knows, `Error` when it knows neither, and the empty text when nothing was
/// asked (a disk without partitions).
pub open spec fn model_of(answers: Seq<Option<Seq<char>>>) -> Seq<char> {
    if answers.len() == 0 {
        Seq::empty()
    } else if answers[0] is Some {
        answers[0].unwrap()
    } else if answers.len() >= 2 && answers[1] is Some {
        answers[1].unwrap()
    } else {
        missing_model()
    }
}

/// A disk being gathered: its size, the partitions found so far, and the
/// answers of udev about its model name, which the first partition gives.
pub struct DiskScan {
    size_in_mb: i64,
    model_answers: Vec<Option<String>>,
    partitions: Partitionsinfo,
}

/// What a `DiskScan` holds.
pub struct DiskScanView {
    pub size_in_mb: i64,
    pub model_answers: Seq<Option<Seq<char>>>,
    pub partitions: Map<Seq<char>, PartitionView>,
}

/// The views of a sequence of optional strings.
pub open spec fn opt_views(s: Seq<Option<String>>) -> Seq<Option<Seq<char>>> {
    s.map_values(|o: Option<String>| crate::cpu::opt_view(o))
}

impl View for DiskScan {
    type V = DiskScanView;

    closed spec fn view(&self) -> DiskScanView {
        DiskScanView {
            size_in_mb: self.size_in_mb,
            model_answers: opt_views(self.model_answers@),
            partitions: self.partitions@,
        }
    }
}

impl DiskScan {
    /// A disk of `size_in_mb`, with nothing else known yet.
    pub fn new(size_in_mb: i64) -> (r: DiskScan)
        ensures
            r@.size_in_mb == size_in_mb,
            r@.model_answers == Seq::<Option<Seq<char>>>::empty(),
            r@.partitions == Map::<Seq<char>, PartitionView>::empty(),
    {
        let r = DiskScan { size_in_mb, model_answers: Vec::new(), partitions: Partitionsinfo::new() };
        assert(opt_views(r.model_answers@) =~= Seq::<Option<Seq<char>>>::empty());
        r
    }

    /// The udev property to ask next for the model name, if any.
    pub fn model_query(&self) -> (r: Option<String>)
        ensures
            (match r {
                Some(p) => model_query_spec(self@.model_answers) == Some(p@),
                None => model_query_spec(self@.model_answers) is None,
            }),
    {
        let n = self.model_answers.len();
        if n == 0 {
            Some(string_of(&chars_of("ID_MODEL")))
        } else if n == 1 && self.model_answers[0].is_none() {
            assert(opt_views(self.model_answers@)[0] is None);
            Some(string_of(&chars_of("ID_NAME")))
        } else {
            proof {
                if n == 1 {
                    assert(opt_views(self.model_answers@)[0] is Some);
                }
            }
            None
        }
    }

    /// Records udev's answer to the property that `model_query` asked.
    pub fn answer_model(&mut self, value: Option<String>)
        requires
            model_query_spec(old(self)@.model_answers) is Some,
        ensures
            final(self)@ == (DiskScanView {
                model_answers: old(self)@.model_answers.push(crate::cpu::opt_view(value)),
                ..old(self)@
            }),
    {
        let ghost before = self.model_answers@;
        self.model_answers.push(value);
        assert(opt_views(self.model_answers@) =~= opt_views(before).push(
            crate::cpu::opt_view(value),
        ));
    }

    /// Adds partition `name` of `size_in_mb`, whose UUID udev gives as
    /// `uuid`, with no file-system figures yet.
    pub fn add_partition(&mut self, name: String, size_in_mb: i64, uuid: Option<String>)
        ensures
            final(self)@ == (DiskScanView {
                partitions: old(self)@.partitions.insert(
                    name@,
                    PartitionView {
                        size_in_mb: size_in_mb,
                        used_in_mb: None,
                        free_in_mb: None,
                        uuid: match uuid {
                            Some(u) => u@,
                            None => missing_uuid(),
                        },
                        mountpoint: None,
                        filesystemtype: None,
                    },
                ),
                ..old(self)@
            }),
            mounts_consistent(old(self)@.partitions) ==> mounts_consistent(final(self)@.partitions),
    {
        let info = Partitioninfo::unmounted(size_in_mb, partition_uuid(uuid));
        self.partitions.insert(name, info);
    }

    /// Whether there is a partition called `name`.
    pub fn has_partition(&self, name: &str) -> (r: bool)
        ensures
            r == self@.partitions.contains_key(name@),
    {
        self.partitions.contains(name)
    }

    /// Records the file-system figures of mounted partition `name`.
    pub fn record_mount(
        &mut self,
        name: &str,
        mountpoint: String,
        fstype: String,
        block_size: u64,
        blocks: u64,
        blocks_available: u64,
    )
        requires
            old(self)@.partitions.contains_key(name@),
            block_size * blocks <= u64::MAX,
            block_size * blocks_available <= u64::MAX,
        ensures
            final(self)@ == (DiskScanView {
                partitions: old(self)@.partitions.insert(
                    name@,
                    mounted(
                        old(self)@.partitions[name@],
                        mountpoint@,
                        fstype@,
                        block_size as int,
                        blocks as int,
                        blocks_available as int,
                    ),
                ),
                ..old(self)@
            }),
            mounts_consistent(old(self)@.partitions) ==> mounts_consistent(final(self)@.partitions),
            final(self)@.partitions[name@].free_in_mb == Some(
                ((block_size * blocks_available) / 1048576) as i64,
            ),
            final(self)@.partitions[name@].used_in_mb == Some(
                ((block_size * blocks) / 1048576 - (block_size * blocks_available) / 1048576) as i64,
            ),
    {
        self.partitions.record_mount(name, mountpoint, fstype, block_size, blocks, blocks_available);
    }

    /// Records, in order, the mounts that the lines of /proc/mounts name,
    /// with the file-system figures (block size, blocks, blocks available)
    /// of each mount point.
    pub fn record_mounts(&mut self, requests: &Vec<MountRequest>, figures: &Vec<(u64, u64, u64)>)
        requires
            mounts_ok(old(self)@.partitions, request_views(requests@), figures@),
        ensures
            final(self)@ == (DiskScanView {
                partitions: apply_mounts(old(self)@.partitions, request_views(requests@), figures@),
                ..old(self)@
            }),
            final(self)@.partitions.dom() == old(self)@.partitions.dom(),
            mounts_consistent(old(self)@.partitions) ==> mounts_consistent(final(self)@.partitions),
    {
        let ghost old_view = self@;
        let ghost plan = request_views(requests@);
        let n = requests.len();
        assert(plan.take(0) =~= Seq::<MountRequestView>::empty());
        assert(figures@.take(0) =~= Seq::<(u64, u64, u64)>::empty());
        for i in 0..n
            invariant
                n == requests.len(),
                plan == request_views(requests@),
                mounts_ok(old_view.partitions, plan, figures@),
                self@ == (DiskScanView {
                    partitions: apply_mounts(
                        old_view.partitions,
                        plan.take(i as int),
                        figures@.take(i as int),
                    ),
                    ..old_view
                }),
                self@.partitions.dom() == old_view.partitions.dom(),
        {
            let r = &requests[i];
            assert(plan[i as int] == r@);
            let (bs, blocks, avail) = figures[i];
            assert(plan.take(i + 1).drop_last() =~= plan.take(i as int));
            assert(figures@.take(i + 1).drop_last() =~= figures@.take(i as int));
            assert(plan.take(i + 1).last() == r@);
            assert(figures@.take(i + 1).last() == figures@[i as int]);
            let mountpoint = r.mountpoint.clone().unwrap();
            let fstype = r.fstype.clone().unwrap();
            assert(self@.partitions.contains_key(r.partition@));
            self.record_mount(r.partition.as_str(), mountpoint, fstype, bs, blocks, avail);
            assert(self@.partitions.dom() =~= old_view.partitions.dom());
        }
        assert(plan.take(n as int) =~= plan);
        assert(figures@.take(n as int) =~= figures@);
        proof {
            if mounts_consistent(old_view.partitions) {
                lemma_apply_mounts_consistent(old_view.partitions, plan, figures@);
            }
        }
    }

    /// The disk that was gathered.
    pub fn finish(self) -> (r: Diskinfo)
        ensures
            r@ == (DiskView {
                modelname: model_of(self@.model_answers),
                size_in_mb: self@.size_in_mb,
                partitions: self@.partitions,
            }),
    {
        let ghost av = opt_views(self.model_answers@);
        let n = self.model_answers.len();
        let modelname = if n == 0 {
            String::new()
        } else {
            assert(av[0] == crate::cpu::opt_view(self.model_answers@[0]));
            match &self.model_answers[0] {
                Some(m) => m.clone(),
                None => {
                    if n >= 2 {
                        assert(av[1] == crate::cpu::opt_view(self.model_answers@[1]));
                        match &self.model_answers[1] {
                            Some(m) => m.clone(),
                            None => string_of(&chars_of("Error")),
                        }
                    } else {
                        string_of(&chars_of("Error"))
                    }
                },
            }
        };
        Diskinfo { modelname, size_in_mb: self.size_in_mb, partitions: self.partitions }
    }
}

/// The disks, by name.
#[derive(Debug)]
pub struct Disksinfo {
    indexes: NamedList<Diskinfo>,
}

impl View for Disksinfo {
    type V = Map<Seq<char>, DiskView>;

    closed spec fn view(&self) -> Map<Seq<char>, DiskView> {
        self.indexes@
    }
}

impl Disksinfo {
    /// No disks.
    pub fn new() -> (r: Disksinfo)
        ensures
            r@ == Map::<Seq<char>, DiskView>::empty(),
    {
        Disksinfo { indexes: NamedList::new() }
    }

    /// Stores `disk` under `name`, in place of any disk of that name.
    pub fn insert(&mut self, name: String, disk: Diskinfo)
        ensures
            final(self)@ == old(self)@.insert(name@, disk@),
    {
        self.indexes.insert(name, disk);
    }

    /// The disk called `name`, if any.
    pub fn get(&self, name: &str) -> (r: Option<&Diskinfo>)
        ensures
            (match r {
                Some(d) => self@.contains_key(name@) && self@[name@] == d@,
                None => !self@.contains_key(name@),
            }),
    {
        self.indexes.get(name)
    }

    /// The disks, each name with its disk.
    pub fn entries(&self) -> (r: &Vec<(String, Diskinfo)>)
        ensures
            crate::keyed::named_map(r@) == self@,
            crate::keyed::distinct_names(r@),
    {
        self.indexes.entries()
    }
}

/// A disk's size in MiB is its number of 512-byte sectors divided by 2048,
/// rounded toward zero.
pub proof fn lemma_sectors_to_mb(sectors: int)
    ensures
        sectors_to_mb(sectors) == div_trunc(sectors, 2048),
{
    if sectors >= 0 {
        assert(sectors * 512 / 1024 == sectors / 2) by (nonlinear_arith)
            requires
                sectors >= 0,
        ;
        assert(sectors / 2 / 1024 == sectors / 2048) by (nonlinear_arith)
            requires
                sectors >= 0,
        ;
    } else {
        let m = -sectors;
        assert((-(sectors * 512)) == m * 512);
        assert(m * 512 / 1024 == m / 2) by (nonlinear_arith)
            requires
                m >= 0,
        ;
        assert(m / 2 / 1024 == m / 2048) by (nonlinear_arith)
            requires
                m >= 0,
        ;
    }
}

/// For a mounted partition, the space used and the space free add up to the
/// file system's size, and neither is negative.
pub proof fn lemma_mount_space_adds_up(
    p: PartitionView,
    mountpoint: Seq<char>,
    fstype: Seq<char>,
    block_size: u64,
    blocks: u64,
    blocks_available: u64,
)
    requires
        block_size * blocks <= u64::MAX,
        block_size * blocks_available <= u64::MAX,
    ensures
        ({
            let q = mounted(
                p,
                mountpoint,
                fstype,
                block_size as int,
                blocks as int,
                blocks_available as int,
            );
            &&& q.used_in_mb.unwrap() + q.free_in_mb.unwrap() == space_mb_spec(
                block_size as int,
                blocks as int,
            )
            &&& q.free_in_mb.unwrap() >= 0
            &&& q.size_in_mb == p.size_in_mb
            &&& q.uuid == p.uuid
        }),
{
    let t = space_mb_spec(block_size as int, blocks as int);
    let a = space_mb_spec(block_size as int, blocks_available as int);
    let tb = block_size * blocks;
    let ab = block_size * blocks_available;
    assert(0 <= tb);
    assert(0 <= ab);
    assert(0 <= t <= tb);
    assert(0 <= a <= ab);
}

/// The model name is asked of the first partition only: after at most two
/// answers, or after one that gives a name, nothing more is asked.
pub proof fn lemma_model_queries_stop(answers: Seq<Option<Seq<char>>>)
    ensures
        answers.len() >= 2 ==> model_query_spec(answers) is None,
        answers.len() >= 1 && answers[0] is Some ==> model_query_spec(answers) is None,
        model_query_spec(answers) is Some ==> answers.len() < 2,
{
}

} // verus!
