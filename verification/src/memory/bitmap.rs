//! A bitmap with one bit per frame: a set bit marks the frame as allocated.

use vstd::prelude::*;

verus! {

/// Whether bit `i` of a byte sequence is set, counting from the lowest bit of
/// the first byte.
pub open spec fn bit_of(bytes: Seq<u8>, i: int) -> bool {
    (bytes[i / 8] >> ((i % 8) as u8)) & 1 == 1
}

/// `i` is the lowest index whose flag is clear.
pub open spec fn is_first_clear(flags: Seq<bool>, i: int) -> bool {
    &&& 0 <= i < flags.len()
    &&& !flags[i]
    &&& forall|j: int| 0 <= j < i ==> flags[j]
}

/// No flag is set.
pub open spec fn all_clear(flags: Seq<bool>) -> bool {
    forall|j: int| 0 <= j < flags.len() ==> !flags[j]
}

/// Every flag is set.
pub open spec fn all_set(flags: Seq<bool>) -> bool {
    forall|j: int| 0 <= j < flags.len() ==> flags[j]
}

/// The number of clear flags.
pub open spec fn count_clear(flags: Seq<bool>) -> nat
    decreases flags.len(),
{
    if flags.len() == 0 {
        0
    } else {
        count_clear(flags.drop_last()) + if flags.last() {
            0nat
        } else {
            1nat
        }
    }
}

/// Setting a clear flag leaves one clear flag fewer; clearing a set flag
/// leaves one more; writing the value that is there changes nothing.
pub proof fn lemma_count_clear_update(flags: Seq<bool>, i: int, value: bool)
    requires
        0 <= i < flags.len(),
    ensures
        flags[i] == value ==> count_clear(flags.update(i, value)) == count_clear(flags),
        !flags[i] && value ==> count_clear(flags.update(i, value)) == count_clear(flags) - 1,
        flags[i] && !value ==> count_clear(flags.update(i, value)) == count_clear(flags) + 1,
    decreases flags.len(),
{
    let updated = flags.update(i, value);
    if i == flags.len() - 1 {
        assert(updated.drop_last() =~= flags.drop_last());
    } else {
        assert(updated.drop_last() =~= flags.drop_last().update(i, value));
        lemma_count_clear_update(flags.drop_last(), i, value);
    }
}

/// No flag is clear exactly when every flag is set.
pub proof fn lemma_count_clear_zero(flags: Seq<bool>)
    ensures
        count_clear(flags) == 0 <==> all_set(flags),
        count_clear(flags) <= flags.len(),
    decreases flags.len(),
{
    if flags.len() > 0 {
        lemma_count_clear_zero(flags.drop_last());
        if all_set(flags) {
            assert forall|j: int| 0 <= j < flags.drop_last().len() implies flags.drop_last()[j] by {
                assert(flags[j]);
            }
        }
        if count_clear(flags) == 0 {
            assert forall|j: int| 0 <= j < flags.len() implies flags[j] by {
                if j < flags.len() - 1 {
                    assert(flags.drop_last()[j]);
                }
            }
        }
    }
}

proof fn lemma_full_byte(b: u8)
    by (bit_vector)
    requires
        b < 8,
    ensures
        (0xFFu8 >> b) & 1 == 1,
{
}

proof fn lemma_not_full_byte(x: u8)
    by (bit_vector)
    requires
        (x >> 0u8) & 1 == 1,
        (x >> 1u8) & 1 == 1,
        (x >> 2u8) & 1 == 1,
        (x >> 3u8) & 1 == 1,
        (x >> 4u8) & 1 == 1,
        (x >> 5u8) & 1 == 1,
        (x >> 6u8) & 1 == 1,
        (x >> 7u8) & 1 == 1,
    ensures
        x == 0xFFu8,
{
}

proof fn lemma_mask_test(x: u8, b: u8)
    by (bit_vector)
    requires
        b < 8,
    ensures
        (x & (1u8 << b) == 0) <==> ((x >> b) & 1 != 1),
        (x >> b) & 1 == 0 || (x >> b) & 1 == 1,
{
}

proof fn lemma_or_bit(x: u8, b: u8, k: u8)
    by (bit_vector)
    requires
        b < 8,
        k < 8,
    ensures
        (((x | (1u8 << b)) >> k) & 1 == 1) <==> (k == b || (x >> k) & 1 == 1),
{
}

proof fn lemma_clear_bit(x: u8, b: u8, k: u8)
    by (bit_vector)
    requires
        b < 8,
        k < 8,
    ensures
        (((x & !(1u8 << b)) >> k) & 1 == 1) <==> (k != b && (x >> k) & 1 == 1),
{
}

proof fn lemma_xor_bit(x: u8, b: u8, k: u8)
    by (bit_vector)
    requires
        b < 8,
        k < 8,
    ensures
        (((x ^ (1u8 << b)) >> k) & 1 == 1) <==> (if k == b {
            (x >> k) & 1 != 1
        } else {
            (x >> k) & 1 == 1
        }),
{
}

proof fn lemma_write_bit(x: u8, b: u8, v: u8, k: u8)
    by (bit_vector)
    requires
        b < 8,
        k < 8,
        v == 0 || v == 1,
    ensures
        ((((x & !(1u8 << b)) | (v << b)) >> k) & 1 == 1) <==> (if k == b {
            v == 1
        } else {
            (x >> k) & 1 == 1
        }),
{
}

/// One bit per tracked frame, packed eight to a byte, lowest bit first.
pub struct Bitmap {
    num_frames: usize,
    bytes: Vec<u8>,
}

impl View for Bitmap {
    type V = Seq<bool>;

    /// The flag of each tracked frame: `true` where the frame is allocated.
    closed spec fn view(&self) -> Seq<bool> {
        Seq::new(self.num_frames as nat, |i: int| bit_of(self.bytes@, i))
    }
}

impl Bitmap {
    /// The storage holds exactly the bytes that the frames need.
    pub closed spec fn wf(&self) -> bool {
        &&& self.num_frames + 7 <= usize::MAX
        &&& self.bytes@.len() == (self.num_frames + 7) / 8
    }

    /// The bits of the last byte that track no frame, lowest first.
    pub closed spec fn tail(&self) -> Seq<bool> {
        Seq::new(
            (self.bytes@.len() * 8 - self.num_frames) as nat,
            |i: int| bit_of(self.bytes@, self.num_frames + i),
        )
    }

    /// A bitmap is as long as the number of frames that it tracks.
    pub proof fn lemma_len(&self)
        ensures
            self@.len() == self.frames(),
    {
    }

    /// The number of frames that the bitmap tracks.
    pub closed spec fn frames(&self) -> nat {
        self.num_frames as nat
    }

    /// A bitmap for `num_frames` frames, all of them free.
    pub fn new(num_frames: usize) -> (bitmap: Bitmap)
        requires
            num_frames + 7 <= usize::MAX,
        ensures
            bitmap.wf(),
            bitmap.frames() == num_frames,
            bitmap@ == Seq::new(num_frames as nat, |i: int| false),
            bitmap.tail().len() == (num_frames + 7) / 8 * 8 - num_frames,
            all_clear(bitmap.tail()),
    {
        let sum: usize = num_frames + 7;
        assert(sum >> 3 == sum / 8) by (bit_vector);
        let size: usize = sum >> 3;
        let mut bytes: Vec<u8> = Vec::new();
        let mut i: usize = 0;
        while i < size
            invariant
                i <= size,
                bytes@.len() == i,
                forall|k: int| 0 <= k < i ==> bytes@[k] == 0u8,
            decreases size - i,
        {
            bytes.push(0u8);
            i += 1;
        }
        let bitmap = Bitmap { num_frames, bytes };
        proof {
            assert forall|j: int| 0 <= j < bitmap.bytes@.len() * 8 implies !bit_of(
                bitmap.bytes@,
                j,
            ) by {
                let b = (j % 8) as u8;
                assert((0u8 >> b) & 1 == 0) by (bit_vector);
            }
            assert(bitmap@ =~= Seq::new(num_frames as nat, |i: int| false));
        }
        bitmap
    }

    /// The number of frames that the bitmap tracks.
    pub fn num_frames(&self) -> (n: usize)
        ensures
            n == self.frames(),
    {
        self.num_frames
    }

    /// The number of bytes that hold the bits.
    pub fn bytes(&self) -> (n: usize)
        requires
            self.wf(),
        ensures
            n == (self.frames() + 7) / 8,
    {
        let sum: usize = self.num_frames + 7;
        assert(sum >> 3 == sum / 8) by (bit_vector);
        sum >> 3
    }

    /// The lowest free frame, if there is one. Bits of the last byte that lie
    /// past the tracked frames are never reported.
    pub fn first_free_frame(&self) -> (found: Option<usize>)
        requires
            self.wf(),
        ensures
            match found {
                Some(i) => is_first_clear(self@, i as int),
                None => all_set(self@),
            },
    {
        let size: usize = self.bytes();
        let mut i: usize = 0;
        let mut byte: u8 = 0;
        while i < size
            invariant_except_break
                byte == 0,
            invariant
                self.wf(),
                size == (self.num_frames + 7) / 8,
                i <= size,
                forall|k: int| 0 <= k < i ==> self.bytes@[k] == 0xFFu8,
            ensures
                i < size ==> byte == self.bytes@[i as int] && byte != 0xFFu8,
            decreases size - i,
        {
            byte = self.bytes[i];
            if byte != u8::MAX {
                break ;
            }
            byte = 0;
            i += 1;
        }
        proof {
            assert forall|j: int| 0 <= j < self.num_frames && j / 8 < i implies bit_of(
                self.bytes@,
                j,
            ) by {
                lemma_full_byte((j % 8) as u8);
            }
        }
        if i == size {
            return None;
        }
        let mut b: u8 = 0;
        while b < 8
            invariant
                b <= 8,
                forall|k: u8| 0 <= k < b ==> (byte >> k) & 1 == 1,
            ensures
                b < 8 ==> (byte >> b) & 1 != 1,
            decreases 8 - b,
        {
            proof {
                lemma_mask_test(byte, b);
            }
            if byte & (1u8 << b) == 0 {
                break ;
            }
            b += 1;
        }
        proof {
            if b == 8 {
                lemma_not_full_byte(byte);
            }
        }
        let frame_index: usize = i * 8 + b as usize;
        proof {
            assert forall|j: int| 0 <= j < self.num_frames && j < frame_index implies bit_of(
                self.bytes@,
                j,
            ) by {
                if j / 8 == i {
                    let k = (j % 8) as u8;
                    assert(k < b);
                }
            }
        }
        if frame_index >= self.num_frames {
            None
        } else {
            Some(frame_index)
        }
    }

    /// Takes the lowest free frame: marks it allocated and returns its index.
    pub fn next(&mut self) -> (taken: Option<usize>)
        requires
            old(self).wf(),
        ensures
            final(self).wf(),
            final(self).frames() == old(self).frames(),
            final(self).tail() == old(self).tail(),
            match taken {
                Some(i) => is_first_clear(old(self)@, i as int) && final(self)@ == old(self)@.update(
                    i as int,
                    true,
                ),
                None => all_set(old(self)@) && final(self)@ == old(self)@,
            },
    {
        if let Some(frame_index) = self.first_free_frame() {
            self.set_one(frame_index);
            Some(frame_index)
        } else {
            None
        }
    }

    /// Whether the frame is free.
    pub fn is_zero(&self, frame_index: usize) -> (free: bool)
        requires
            self.wf(),
            frame_index < self.frames(),
        ensures
            free == !self@[frame_index as int],
    {
        self.get_bit(frame_index) == 0
    }

    /// Whether the frame is allocated.
    pub fn is_one(&self, frame_index: usize) -> (taken: bool)
        requires
            self.wf(),
            frame_index < self.frames(),
        ensures
            taken == self@[frame_index as int],
    {
        !self.is_zero(frame_index)
    }

    /// The byte that holds the frame's bit, and the bit's place in that byte.
    pub fn coords(&self, frame_index: usize) -> (at: (usize, u8))
        requires
            frame_index < self.frames(),
        ensures
            at.0 == frame_index / 8,
            at.1 == frame_index % 8,
    {
        let byte_index: usize = frame_index / 8;
        let bit_index: u8 = (frame_index % 8) as u8;
        (byte_index, bit_index)
    }

    /// The frame's bit: 1 where it is allocated, 0 where it is free.
    pub fn get_bit(&self, frame_index: usize) -> (bit: u8)
        requires
            self.wf(),
            frame_index < self.frames(),
        ensures
            bit == if self@[frame_index as int] {
                1u8
            } else {
                0u8
            },
    {
        let (byte_index, bit_index) = self.coords(frame_index);
        let byte: u8 = self.bytes[byte_index];
        proof {
            lemma_mask_test(byte, bit_index);
        }
        (byte >> bit_index) & 1
    }

    /// Writes the frame's bit.
    pub fn set_bit(&mut self, frame_index: usize, value: bool)
        requires
            old(self).wf(),
            frame_index < old(self).frames(),
        ensures
            final(self).wf(),
            final(self).frames() == old(self).frames(),
            final(self).tail() == old(self).tail(),
            final(self)@ == old(self)@.update(frame_index as int, value),
    {
        let (byte_index, bit_index) = self.coords(frame_index);
        let byte: u8 = self.bytes[byte_index];
        let bit: u8 = if value {
            1
        } else {
            0
        };
        let written: u8 = (byte & !(1u8 << bit_index)) | (bit << bit_index);
        self.bytes.set(byte_index, written);
        proof {
            assert forall|j: int| 0 <= j < self.num_frames implies bit_of(self.bytes@, j) == old(
                self,
            )@.update(frame_index as int, value)[j] by {
                if j / 8 == byte_index {
                    lemma_write_bit(byte, bit_index, bit, (j % 8) as u8);
                }
            }
            assert(self@ =~= old(self)@.update(frame_index as int, value));
            assert forall|j: int| self.num_frames <= j < self.bytes@.len() * 8 implies bit_of(
                self.bytes@,
                j,
            ) == bit_of(old(self).bytes@, j) by {
                if j / 8 == byte_index {
                    lemma_write_bit(byte, bit_index, bit, (j % 8) as u8);
                }
            }
            assert(self.tail() =~= old(self).tail());
        }
    }

    /// Marks the frame allocated.
    pub fn set_one(&mut self, frame_index: usize)
        requires
            old(self).wf(),
            frame_index < old(self).frames(),
        ensures
            final(self).wf(),
            final(self).frames() == old(self).frames(),
            final(self).tail() == old(self).tail(),
            final(self)@ == old(self)@.update(frame_index as int, true),
    {
        let (byte_index, bit_index) = self.coords(frame_index);
        let byte: u8 = self.bytes[byte_index];
        self.bytes.set(byte_index, byte | (1u8 << bit_index));
        proof {
            assert forall|j: int| 0 <= j < self.num_frames implies bit_of(self.bytes@, j) == old(
                self,
            )@.update(frame_index as int, true)[j] by {
                if j / 8 == byte_index {
                    lemma_or_bit(byte, bit_index, (j % 8) as u8);
                }
            }
            assert(self@ =~= old(self)@.update(frame_index as int, true));
            assert forall|j: int| self.num_frames <= j < self.bytes@.len() * 8 implies bit_of(
                self.bytes@,
                j,
            ) == bit_of(old(self).bytes@, j) by {
                if j / 8 == byte_index {
                    lemma_or_bit(byte, bit_index, (j % 8) as u8);
                }
            }
            assert(self.tail() =~= old(self).tail());
        }
    }

    /// Marks the frame free.
    pub fn set_zero(&mut self, frame_index: usize)
        requires
            old(self).wf(),
            frame_index < old(self).frames(),
        ensures
            final(self).wf(),
            final(self).frames() == old(self).frames(),
            final(self).tail() == old(self).tail(),
            final(self)@ == old(self)@.update(frame_index as int, false),
    {
        let (byte_index, bit_index) = self.coords(frame_index);
        let byte: u8 = self.bytes[byte_index];
        self.bytes.set(byte_index, byte & !(1u8 << bit_index));
        proof {
            assert forall|j: int| 0 <= j < self.num_frames implies bit_of(self.bytes@, j) == old(
                self,
            )@.update(frame_index as int, false)[j] by {
                if j / 8 == byte_index {
                    lemma_clear_bit(byte, bit_index, (j % 8) as u8);
                }
            }
            assert(self@ =~= old(self)@.update(frame_index as int, false));
            assert forall|j: int| self.num_frames <= j < self.bytes@.len() * 8 implies bit_of(
                self.bytes@,
                j,
            ) == bit_of(old(self).bytes@, j) by {
                if j / 8 == byte_index {
                    lemma_clear_bit(byte, bit_index, (j % 8) as u8);
                }
            }
            assert(self.tail() =~= old(self).tail());
        }
    }

    /// Flips the frame's bit.
    pub fn toggle_bit(&mut self, frame_index: usize)
        requires
            old(self).wf(),
            frame_index < old(self).frames(),
        ensures
            final(self).wf(),
            final(self).frames() == old(self).frames(),
            final(self).tail() == old(self).tail(),
            final(self)@ == old(self)@.update(frame_index as int, !old(self)@[frame_index as int]),
    {
        let (byte_index, bit_index) = self.coords(frame_index);
        let byte: u8 = self.bytes[byte_index];
        self.bytes.set(byte_index, byte ^ (1u8 << bit_index));
        proof {
            assert forall|j: int| 0 <= j < self.num_frames implies bit_of(self.bytes@, j) == old(
                self,
            )@.update(frame_index as int, !old(self)@[frame_index as int])[j] by {
                if j / 8 == byte_index {
                    lemma_xor_bit(byte, bit_index, (j % 8) as u8);
                }
            }
            assert(self@ =~= old(self)@.update(frame_index as int, !old(self)@[frame_index as int]));
            assert forall|j: int| self.num_frames <= j < self.bytes@.len() * 8 implies bit_of(
                self.bytes@,
                j,
            ) == bit_of(old(self).bytes@, j) by {
                if j / 8 == byte_index {
                    lemma_xor_bit(byte, bit_index, (j % 8) as u8);
                }
            }
            assert(self.tail() =~= old(self).tail());
        }
    }

    /// The number of free frames.
    pub fn free(&self) -> (n: usize)
        requires
            self.wf(),
        ensures
            n == count_clear(self@),
    {
        let mut n: usize = 0;
        let mut i: usize = 0;
        while i < self.num_frames
            invariant
                self.wf(),
                i <= self.num_frames,
                n <= i,
                n == count_clear(self@.take(i as int)),
            decreases self.num_frames - i,
        {
            proof {
                assert(self@.take(i + 1).drop_last() =~= self@.take(i as int));
            }
            if self.is_zero(i) {
                n += 1;
            }
            i += 1;
        }
        proof {
            assert(self@.take(i as int) =~= self@);
        }
        n
    }

    /// The number of bits in the last byte that track no frame.
    pub fn extra_bits(&self) -> (extra: u8)
        requires
            self.wf(),
        ensures
            extra == (self.frames() + 7) / 8 * 8 - self.frames(),
            extra < 8,
    {
        ((self.bytes() * 8) - self.num_frames) as u8
    }
}

} // verus!
