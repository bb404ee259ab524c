//! The Multiboot2 header by which the boot loader finds the kernel and
//! learns what the kernel asks of it.

use vstd::prelude::*;

verus! {

/// The number by which a boot loader knows a Multiboot2 header.
pub const HEADER_MAGIC: u32 = 0xE852_50D6;

/// The architecture that the header names: protected mode of i386.
pub const HEADER_ARCH: u32 = 0;

/// Tag type: the end of the header.
pub const HEADER_TAG_END: u32 = 0;

/// Tag type: a request for information.
pub const HEADER_TAG_INFO_REQUEST: u32 = 1;

/// Tag type: what the kernel needs of the console.
pub const HEADER_TAG_CONSOLE_FLAGS: u32 = 4;

/// Tag type: the frame buffer that the kernel prefers.
pub const HEADER_TAG_FRAMEBUFFER: u32 = 5;

/// The information that is asked for: the memory map.
pub const TAG_TYPE_MEM_MAP: u32 = 6;

/// Console flags: a console is required, and EGA text mode is supported.
pub const CONSOLE_FLAGS: u32 = 3;

/// Tag flag of the frame buffer tag.
pub const FLAGS_FRAMEBUFFER: u32 = 1;

pub const FRAMEBUFFER_WIDTH: u32 = 80;

pub const FRAMEBUFFER_HEIGHT: u32 = 25;

/// Depth of the frame buffer; zero leaves the choice to the boot loader.
pub const FRAMEBUFFER_DEPTH: u32 = 0;

/// Number of bytes in the header.
pub const HEADER_LENGTH: u32 = 80;

/// The checksum of a header of the given length: the number that brings
/// the sum of magic, architecture, length and checksum to zero in 32 bits.
pub open spec fn checksum(length: u32) -> u32 {
    ((0x1_0000_0000 - (HEADER_MAGIC + HEADER_ARCH + length) % 0x1_0000_0000) % 0x1_0000_0000) as u32
}

/// The words of the header: magic, architecture, length and checksum, the
/// request for the memory map, the console flags, the frame buffer of 80
/// by 25, and the end tag. Each tag starts with its type in the lower and
/// its flags in the upper half of a word, followed by its size, and is
/// padded to eight bytes.
pub open spec fn header_words() -> Seq<u32> {
    seq![
        HEADER_MAGIC,
        HEADER_ARCH,
        HEADER_LENGTH,
        checksum(HEADER_LENGTH),
        HEADER_TAG_INFO_REQUEST,
        16u32,
        TAG_TYPE_MEM_MAP,
        0u32,
        HEADER_TAG_CONSOLE_FLAGS,
        16u32,
        CONSOLE_FLAGS,
        0u32,
        0x1_0005u32,
        24u32,
        FRAMEBUFFER_WIDTH,
        FRAMEBUFFER_HEIGHT,
        FRAMEBUFFER_DEPTH,
        0u32,
        HEADER_TAG_END,
        8u32,
    ]
}

/// The checksum of a header of the given length.
pub fn header_checksum(length: u32) -> (sum: u32)
    ensures
        sum == checksum(length),
        (HEADER_MAGIC + HEADER_ARCH + length + sum) % 0x1_0000_0000 == 0,
{
    let total: u32 = HEADER_MAGIC.wrapping_add(HEADER_ARCH).wrapping_add(length);
    0u32.wrapping_sub(total)
}

/// The first word of a tag: its type in the lower half, its flags in the
/// upper half.
pub fn tag_word(tag_type: u32, flags: u32) -> (word: u32)
    requires
        tag_type < 0x1_0000,
        flags < 0x1_0000,
    ensures
        word == tag_type + flags * 0x1_0000,
{
    tag_type + flags * 0x1_0000
}

/// The header, word by word.
pub fn header() -> (words: Vec<u32>)
    ensures
        words@ == header_words(),
        words@.len() * 4 == HEADER_LENGTH,
        (words@[0] + words@[1] + words@[2] + words@[3]) % 0x1_0000_0000 == 0,
{
    let mut words: Vec<u32> = Vec::new();
    words.push(HEADER_MAGIC);
    words.push(HEADER_ARCH);
    words.push(HEADER_LENGTH);
    words.push(header_checksum(HEADER_LENGTH));
    words.push(tag_word(HEADER_TAG_INFO_REQUEST, 0));
    words.push(16);
    words.push(TAG_TYPE_MEM_MAP);
    words.push(0);
    words.push(tag_word(HEADER_TAG_CONSOLE_FLAGS, 0));
    words.push(16);
    words.push(CONSOLE_FLAGS);
    words.push(0);
    words.push(tag_word(HEADER_TAG_FRAMEBUFFER, FLAGS_FRAMEBUFFER));
    words.push(24);
    words.push(FRAMEBUFFER_WIDTH);
    words.push(FRAMEBUFFER_HEIGHT);
    words.push(FRAMEBUFFER_DEPTH);
    words.push(0);
    words.push(tag_word(HEADER_TAG_END, 0));
    words.push(8);
    proof {
        assert(words@ =~= header_words());
    }
    words
}

} // verus!
