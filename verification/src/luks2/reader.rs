//! Reading from an unlocked LUKS2 volume: which disk blocks a read of the
//! decrypted data needs, and how the wanted bytes come out of the
//! decrypted sectors.
//!
//! The blocks themselves are read by the caller (from the firmware's block
//! device); the arithmetic and the decryption are here.
use vstd::prelude::*;
use crate::luks2::crypto::AesXts;
use crate::luks2::crypto::decrypted;
use crate::luks2::unlock::Luks2Error;
use crate::luks2::unlock::div_ceil;

verus! {

/// Which bytes a read of the decrypted data touches: where the data
/// starts in the partition, the sector-aligned start, the first disk block
/// and how many bytes of blocks to read, where the sectors start in those
/// blocks, and how many bytes of sectors they are.
pub struct ReadLayout {
    pub physical_start: u64,
    pub aligned_start: u64,
    pub disk_start_block: u64,
    pub disk_read_size: usize,
    pub sector_offset_in_disk: usize,
    pub sector_read_size: usize,
}

/// The layout of a read of `size` bytes at `start` of the decrypted data,
/// for data at `offset` in a partition that begins at block `lba`, with
/// disk blocks of `bs` bytes and sectors of `ss` bytes.
pub open spec fn layout_of(bs: nat, lba: nat, offset: nat, ss: nat, start: nat, size: nat) -> (
    nat,
    nat,
    nat,
    nat,
    nat,
    nat,
) {
    let ps = offset + start;
    let pe = ps + size;
    let s0 = ps / ss;
    let s1 = div_ceil(pe, ss);
    let aligned = s0 * ss;
    let sectors = ((s1 - s0) * ss) as nat;
    let first_block = aligned / bs;
    let disk_start = lba + first_block;
    let disk_end = lba + div_ceil(aligned + sectors, bs);
    (
        ps,
        aligned,
        disk_start,
        ((disk_end - disk_start) * bs) as nat,
        (aligned - first_block * bs) as nat,
        sectors,
    )
}

/// The numbers of such a read fit the integer types that hold them.
pub open spec fn layout_fits(bs: nat, lba: nat, offset: nat, ss: nat, start: nat, size: nat) -> bool {
    let ps = offset + start;
    let pe = ps + size;
    let s1 = div_ceil(pe, ss);
    let l = layout_of(bs, lba, offset, ss, start, size);
    &&& pe + ss <= u64::MAX
    &&& s1 * ss + bs <= u64::MAX
    &&& lba + div_ceil(l.1 + l.5, bs) <= u64::MAX
    &&& l.3 <= usize::MAX
    &&& l.5 <= usize::MAX
}

/// The view of a layout.
pub open spec fn layout_view(l: ReadLayout) -> (nat, nat, nat, nat, nat, nat) {
    (
        l.physical_start as nat,
        l.aligned_start as nat,
        l.disk_start_block as nat,
        l.disk_read_size as nat,
        l.sector_offset_in_disk as nat,
        l.sector_read_size as nat,
    )
}

/// Facts of division that the layout rests on.
proof fn lemma_div_ceil(a: nat, b: nat)
    requires
        b > 0,
    ensures
        div_ceil(a, b) * b >= a,
        div_ceil(a, b) * b < a + b,
        (a / b) * b <= a,
        a / b <= div_ceil(a, b),
{
    let x = (a + b - 1) as int;
    let q = x / (b as int);
    vstd::arithmetic::div_mod::lemma_fundamental_div_mod(x, b as int);
    vstd::arithmetic::div_mod::lemma_mod_pos_bound(x, b as int);
    vstd::arithmetic::mul::lemma_mul_is_commutative(b as int, q);
    vstd::arithmetic::div_mod::lemma_fundamental_div_mod(a as int, b as int);
    vstd::arithmetic::div_mod::lemma_mod_pos_bound(a as int, b as int);
    vstd::arithmetic::mul::lemma_mul_is_commutative(b as int, (a / b) as int);
    vstd::arithmetic::div_mod::lemma_div_is_ordered(a as int, x, b as int);
}

/// The block and sector arithmetic of a read.
pub fn read_layout(
    disk_block_size: u32,
    start_lba: u64,
    data_offset: u64,
    sector_size: u32,
    start_byte: u64,
    output_size: usize,
) -> (r: ReadLayout)
    requires
        disk_block_size > 0,
        sector_size > 0,
        layout_fits(
            disk_block_size as nat,
            start_lba as nat,
            data_offset as nat,
            sector_size as nat,
            start_byte as nat,
            output_size as nat,
        ),
    ensures
        layout_view(r) == layout_of(
            disk_block_size as nat,
            start_lba as nat,
            data_offset as nat,
            sector_size as nat,
            start_byte as nat,
            output_size as nat,
        ),
        r.aligned_start <= r.physical_start,
        r.physical_start + output_size <= r.aligned_start + r.sector_read_size,
        r.sector_read_size as int % sector_size as int == 0,
        r.sector_offset_in_disk + r.sector_read_size <= r.disk_read_size,
{
    let bs = disk_block_size as u64;
    let ss = sector_size as u64;
    let ghost l = layout_of(
        disk_block_size as nat,
        start_lba as nat,
        data_offset as nat,
        sector_size as nat,
        start_byte as nat,
        output_size as nat,
    );
    let physical_start = data_offset + start_byte;
    let physical_end = physical_start + output_size as u64;
    let start_sector = physical_start / ss;
    let end_sector = (physical_end + ss - 1) / ss;
    proof {
        lemma_div_ceil(physical_end as nat, ss as nat);
        lemma_div_ceil(physical_start as nat, ss as nat);
        vstd::arithmetic::div_mod::lemma_div_is_ordered(
            physical_start as int,
            physical_end as int,
            ss as int,
        );
        vstd::arithmetic::mul::lemma_mul_inequality(start_sector as int, end_sector as int, ss as int);
        vstd::arithmetic::mul::lemma_mul_is_distributive_sub_other_way(
            ss as int,
            end_sector as int,
            start_sector as int,
        );
    }
    let aligned_start = start_sector * ss;
    let sector_read = (end_sector - start_sector) * ss;
    let sector_read_size = sector_read as usize;
    let partition_start_block = aligned_start / bs;
    proof {
        lemma_div_ceil(aligned_start as nat, bs as nat);
        lemma_div_ceil((aligned_start + sector_read) as nat, bs as nat);
        vstd::arithmetic::div_mod::lemma_div_is_ordered(
            aligned_start as int,
            (aligned_start + sector_read) as int,
            bs as int,
        );
        vstd::arithmetic::div_mod::lemma_mod_multiples_basic((end_sector - start_sector) as int, ss as int);
    }
    let disk_start_block = start_lba + partition_start_block;
    let end_block = (aligned_start + sector_read + bs - 1) / bs;
    let disk_end_block = start_lba + end_block;
    proof {
        vstd::arithmetic::mul::lemma_mul_inequality(
            partition_start_block as int,
            end_block as int,
            bs as int,
        );
        vstd::arithmetic::mul::lemma_mul_is_distributive_sub_other_way(
            bs as int,
            end_block as int,
            partition_start_block as int,
        );
    }
    let disk_read = (disk_end_block - disk_start_block) * bs;
    let offset_in_disk = aligned_start - partition_start_block * bs;
    ReadLayout {
        physical_start,
        aligned_start,
        disk_start_block,
        disk_read_size: disk_read as usize,
        sector_offset_in_disk: offset_in_disk as usize,
        sector_read_size,
    }
}

/// A reader of the decrypted data of an unlocked volume.
pub struct DecryptingReader {
    pub disk_block_size: u32,
    pub start_lba: u64,
    pub cipher: AesXts,
    /// offset where encrypted data begins (after LUKS header)
    pub data_offset: u64,
    /// LUKS sector size (from segment, usually 512 or 4096)
    pub sector_size: u32,
    /// starting IV tweak value
    pub iv_tweak: u64,
}

impl DecryptingReader {
    /// A reader with the master key of the volume; the key must be the 64
    /// bytes of AES-256-XTS.
    pub fn new(
        disk_block_size: u32,
        start_lba: u64,
        master_key: &[u8],
        data_offset: u64,
        sector_size: u32,
        iv_tweak: u64,
    ) -> (r: Result<Self, Luks2Error>)
        ensures
            master_key@.len() != 64 ==> r matches Err(Luks2Error::InvalidKeySize),
            master_key@.len() == 64 ==> (r matches Ok(x) && x.cipher.key() == master_key@
                && x.cipher.spec_sector_size() == sector_size && x.disk_block_size
                == disk_block_size && x.start_lba == start_lba && x.data_offset == data_offset
                && x.sector_size == sector_size && x.iv_tweak == iv_tweak),
    {
        match AesXts::new(master_key, sector_size as usize) {
            Ok(cipher) => Ok(
                DecryptingReader {
                    disk_block_size,
                    start_lba,
                    cipher,
                    data_offset,
                    sector_size,
                    iv_tweak,
                },
            ),
            Err(_) => Err(Luks2Error::InvalidKeySize),
        }
    }

    /// The layout of a read of `output_size` bytes at `start_byte`.
    pub fn layout(&self, start_byte: u64, output_size: usize) -> (r: ReadLayout)
        requires
            self.disk_block_size > 0,
            self.sector_size > 0,
            layout_fits(
                self.disk_block_size as nat,
                self.start_lba as nat,
                self.data_offset as nat,
                self.sector_size as nat,
                start_byte as nat,
                output_size as nat,
            ),
        ensures
            layout_view(r) == layout_of(
                self.disk_block_size as nat,
                self.start_lba as nat,
                self.data_offset as nat,
                self.sector_size as nat,
                start_byte as nat,
                output_size as nat,
            ),
            r.aligned_start <= r.physical_start,
            r.physical_start + output_size <= r.aligned_start + r.sector_read_size,
            r.sector_read_size as int % self.sector_size as int == 0,
            r.sector_offset_in_disk + r.sector_read_size <= r.disk_read_size,
    {
        read_layout(
            self.disk_block_size,
            self.start_lba,
            self.data_offset,
            self.sector_size,
            start_byte,
            output_size,
        )
    }

    /// The encrypted sectors within the disk blocks that were read.
    pub fn sector_bytes(&self, layout: &ReadLayout, disk_buf: &Vec<u8>) -> (r: Vec<u8>)
        requires
            layout.sector_offset_in_disk + layout.sector_read_size <= disk_buf@.len(),
        ensures
            r@ == disk_buf@.subrange(
                layout.sector_offset_in_disk as int,
                layout.sector_offset_in_disk + layout.sector_read_size,
            ),
    {
        let n = disk_buf.len();
        let start = layout.sector_offset_in_disk;
        let end = start + layout.sector_read_size;
        vstd::slice::slice_to_vec(vstd::slice::slice_subrange(disk_buf.as_slice(), start, end))
    }

    /// The `output_len` decrypted bytes of a read at `start_byte`, out of
    /// its encrypted sectors: the sectors are decrypted with the tweak of
    /// the read's logical sector, and the wanted bytes cut out.
    pub fn decrypt_into(
        &self,
        start_byte: u64,
        output_len: usize,
        layout: &ReadLayout,
        sectors: Vec<u8>,
    ) -> (r: Vec<u8>)
        requires
            self.cipher.key().len() == 64,
            self.cipher.spec_sector_size() == self.sector_size,
            self.sector_size >= 16,
            layout.aligned_start <= layout.physical_start,
            layout.physical_start - layout.aligned_start + output_len <= sectors@.len(),
            self.iv_tweak + (start_byte as nat) / (self.sector_size as nat) + sectors@.len() / (
            self.sector_size as nat) <= u64::MAX,
        ensures
            r@ == decrypted(
                self.cipher.key(),
                self.sector_size as nat,
                (self.iv_tweak + (start_byte as nat) / (self.sector_size as nat)) as nat,
                sectors@,
            ).subrange(
                layout.physical_start - layout.aligned_start,
                layout.physical_start - layout.aligned_start + output_len,
            ),
    {
        let logical_sector = start_byte / self.sector_size as u64;
        let mut data = sectors;
        self.cipher.decrypt_sectors(self.iv_tweak + logical_sector, &mut data);
        let n = data.len();
        let start = (layout.physical_start - layout.aligned_start) as usize;
        vstd::slice::slice_to_vec(vstd::slice::slice_subrange(data.as_slice(), start, start + output_len))
    }
}

} // verus!
