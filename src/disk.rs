//! Mounted block devices, from the mount table.
use vstd::prelude::*;
use crate::text::{words, pieces, has_prefix, split_on, split_words, starts_with, byte_strings};

verus! {

/// One mounted block device.
pub struct Disk {
    /// Device name without the `/dev/` prefix.
    pub name: Vec<u8>,
    pub mount_point: Vec<u8>,
    pub file_system: Vec<u8>,
    pub total_space: u64,
    pub available_space: u64,
}

/// The source prefix of a locally attached block device.
pub open spec fn device_prefix() -> Seq<u8> {
    seq![47u8, 100u8, 101u8, 118u8, 47u8, 115u8, 100u8]
}

/// What a mount-table line contributes: for a block-device source, its name
/// (without `/dev/`), mount point and file system type.
pub open spec fn mount_entry(line: Seq<u8>) -> Option<(Seq<u8>, Seq<u8>, Seq<u8>)> {
    let w = words(line);
    if w.len() >= 3 && has_prefix(w[0], device_prefix()) {
        Some((w[0].subrange(5, w[0].len() as int), w[1], w[2]))
    } else {
        None
    }
}

/// The disks a sequence of mount-table lines lists, in order.
pub open spec fn mounted_disks(lines: Seq<Seq<u8>>) -> Seq<(Seq<u8>, Seq<u8>, Seq<u8>)>
    decreases lines.len(),
{
    if lines.len() == 0 {
        seq![]
    } else {
        let pre = mounted_disks(lines.drop_last());
        match mount_entry(lines.last()) {
            Some(e) => pre.push(e),
            None => pre,
        }
    }
}

pub open spec fn disk_view(d: Disk) -> (Seq<u8>, Seq<u8>, Seq<u8>) {
    (d.name@, d.mount_point@, d.file_system@)
}

impl Disk {
    /// Records the capacity and free space of the device.
    pub fn update_space(&mut self, total: u64, available: u64)
        ensures
            disk_view(*final(self)) == disk_view(*old(self)),
            final(self).total_space == total,
            final(self).available_space == available,
    {
        self.total_space = total;
        self.available_space = available;
    }
}

fn tail_from(s: &Vec<u8>, a: usize) -> (r: Vec<u8>)
    requires
        a <= s.len(),
    ensures
        r@ == s@.subrange(a as int, s@.len() as int),
{
    let mut out: Vec<u8> = Vec::new();
    let mut i: usize = a;
    while i < s.len()
        invariant
            a <= i <= s.len(),
            out@ == s@.subrange(a as int, i as int),
        decreases s.len() - i,
    {
        out.push(s[i]);
        i += 1;
        assert(out@ =~= s@.subrange(a as int, i as int));
    }
    out
}

/// Lists the block devices of the mount table `content`, one per line whose
/// source starts with `/dev/sd`; usage counters start at zero.
pub fn parse_mounts(content: &[u8]) -> (r: Vec<Disk>)
    ensures
        r@.map_values(|d: Disk| disk_view(d)) == mounted_disks(pieces(content@, 10u8)),
        forall|i: int| 0 <= i < r@.len() ==> (#[trigger] r@[i]).total_space == 0
            && r@[i].available_space == 0,
{
    let lines = split_on(content, 10u8);
    let ghost ls = byte_strings(lines@);
    let prefix = vec![47u8, 100u8, 101u8, 118u8, 47u8, 115u8, 100u8];
    assert(prefix@ == device_prefix());
    let mut out: Vec<Disk> = Vec::new();
    let mut i: usize = 0;
    while i < lines.len()
        invariant
            0 <= i <= lines.len(),
            ls.len() == lines@.len(),
            ls == byte_strings(lines@),
            prefix@ == device_prefix(),
            out@.map_values(|d: Disk| disk_view(d)) == mounted_disks(ls.subrange(0, i as int)),
            forall|k: int| 0 <= k < out@.len() ==> (#[trigger] out@[k]).total_space == 0
                && out@[k].available_space == 0,
        decreases lines.len() - i,
    {
        assert(ls.subrange(0, i + 1).drop_last() =~= ls.subrange(0, i as int));
        assert(ls.subrange(0, i + 1).last() == lines@[i as int]@);
        let w = split_words(lines[i].as_slice());
        if w.len() >= 3 && starts_with(w[0].as_slice(), prefix.as_slice()) {
            assert(byte_strings(w@)[0] == w@[0]@);
            assert(byte_strings(w@)[1] == w@[1]@);
            assert(byte_strings(w@)[2] == w@[2]@);
            let d = Disk {
                name: tail_from(&w[0], 5),
                mount_point: w[1].clone(),
                file_system: w[2].clone(),
                total_space: 0,
                available_space: 0,
            };
            let ghost before = out@;
            let ghost dd = d;
            out.push(d);
            assert(out@[out@.len() - 1] == dd);
            assert(out@.map_values(|d: Disk| disk_view(d)) =~= before.map_values(
                |d: Disk| disk_view(d),
            ).push(disk_view(d)));
            assert(forall|k: int| 0 <= k < before.len() ==> out@[k] == before[k]);
        }
        i += 1;
    }
    assert(ls.subrange(0, ls.len() as int) == ls);
    out
}

} // verus!
