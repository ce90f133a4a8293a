//! The remote namespace as `EFI_BLOCK_IO_PROTOCOL`.
//!
//! Once a handle carries BlockIO, the firmware's own machinery takes over: the
//! partition driver reads the GPT, the FAT driver mounts the ESP, and the boot
//! manager can load an image from a disk that does not exist on this machine.

use crate::firmware::nvme::Geometry;
use vstd::prelude::*;

verus! {

/// The medium's id. It never changes: there is one namespace per boot.
pub const MEDIA_ID: u32 = 1;

/// What the protocol says of the medium.
#[derive(Debug, Clone, Copy, PartialEq, Eq, Structural)]
pub struct Media {
    pub block_size: u32,
    pub last_block: u64,
}

impl Media {
    pub fn of(geometry: &Geometry) -> (r: Self)
        ensures
            r.block_size == geometry.block_size,
            r.last_block == if geometry.blocks == 0 {
                0
            } else {
                geometry.blocks - 1
            },
    {
        Media {
            block_size: geometry.block_size,
            last_block: if geometry.blocks == 0 {
                0
            } else {
                geometry.blocks - 1
            },
        }
    }
}

/// How a request for blocks is answered, or that it has to be carried out.
#[derive(Debug, Clone, Copy, PartialEq, Eq, Structural)]
pub enum BlockAnswer {
    MediaChanged,
    InvalidParameter,
    Success,
    BadBufferSize,
    DeviceError,
    /// Read or write the blocks.
    Transfer,
}

pub open spec fn answer(
    media: Media,
    media_id: u32,
    has_buffer: bool,
    size: usize,
    attached: bool,
) -> BlockAnswer {
    if media_id != MEDIA_ID {
        BlockAnswer::MediaChanged
    } else if !has_buffer {
        BlockAnswer::InvalidParameter
    } else if size == 0 {
        BlockAnswer::Success
    } else if size as int % media.block_size as int != 0 {
        BlockAnswer::BadBufferSize
    } else if !attached {
        BlockAnswer::DeviceError
    } else {
        BlockAnswer::Transfer
    }
}

/// What to do with a request to read or write blocks.
pub fn check_request(
    media: &Media,
    media_id: u32,
    has_buffer: bool,
    size: usize,
    attached: bool,
) -> (r: BlockAnswer)
    requires
        media.block_size > 0,
    ensures
        r == answer(*media, media_id, has_buffer, size, attached),
{
    if media_id != MEDIA_ID {
        BlockAnswer::MediaChanged
    } else if !has_buffer {
        BlockAnswer::InvalidParameter
    } else if size == 0 {
        BlockAnswer::Success
    } else if size % media.block_size as usize != 0 {
        BlockAnswer::BadBufferSize
    } else if !attached {
        BlockAnswer::DeviceError
    } else {
        BlockAnswer::Transfer
    }
}

// ---------------------------------------------------------------------------
// Laws

/// A transfer is made exactly where the media is the one that was announced, there is a
/// buffer of one or more whole blocks, and the namespace is attached.
pub proof fn law_whole_blocks_are_transferred(
    media: Media,
    media_id: u32,
    has_buffer: bool,
    blocks: nat,
    size: usize,
    attached: bool,
)
    requires
        media.block_size > 0,
        size == blocks * media.block_size,
    ensures
        answer(media, media_id, has_buffer, size, attached) is Transfer <==> media_id == 1
            && has_buffer && blocks > 0 && attached,
        media_id != 1 ==> answer(media, media_id, has_buffer, size, attached) is MediaChanged,
        media_id == 1 && !has_buffer ==> answer(media, media_id, has_buffer, size, attached)
            is InvalidParameter,
        media_id == 1 && has_buffer && blocks == 0 ==> answer(
            media,
            media_id,
            has_buffer,
            size,
            attached,
        ) is Success,
        media_id == 1 && has_buffer && blocks > 0 && !attached ==> answer(
            media,
            media_id,
            has_buffer,
            size,
            attached,
        ) is DeviceError,
{
    let b = media.block_size as int;
    let n = blocks as int;
    assert((n * b) % b == 0) by {
        vstd::arithmetic::div_mod::lemma_mod_multiples_basic(n, b);
    }
    assert(n > 0 ==> n * b > 0) by (nonlinear_arith)
        requires
            b > 0,
    ;
    assert(n == 0 ==> n * b == 0);
}

/// A buffer that ends within a block is refused, whatever is attached.
pub proof fn law_part_of_a_block_is_refused(
    media: Media,
    blocks: nat,
    rest: nat,
    size: usize,
    attached: bool,
)
    requires
        0 < rest < media.block_size,
        size == blocks * media.block_size + rest,
    ensures
        answer(media, 1, true, size, attached) is BadBufferSize,
{
    let b = media.block_size as int;
    vstd::arithmetic::div_mod::lemma_mod_multiples_vanish(blocks as int, rest as int, b);
    vstd::arithmetic::div_mod::lemma_small_mod(rest, b as nat);
    assert(b * blocks == blocks * b) by (nonlinear_arith);
    assert(blocks * b >= 0) by (nonlinear_arith)
        requires
            b > 0,
            blocks >= 0,
    ;
}

} // verus!
