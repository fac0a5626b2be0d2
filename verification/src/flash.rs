//! The internal flash image of the simulator, kept in memory and saved to a
//! file after every change.

use vstd::prelude::*;
use crate::littlefs_params::{BLOCK_COUNT, BLOCK_SIZE};

verus! {

/// Size of the flash image in bytes.
pub const FLASH_SIZE: usize = 128 * 1024;

/// File the flash image is saved to.
pub const STATE_FILE: &'static str = "solo-state.bin";

/// The image after writing `data` at `off`.
pub open spec fn written(image: Seq<u8>, off: nat, data: Seq<u8>) -> Seq<u8> {
    image.take(off as int) + data + image.skip((off + data.len()) as int)
}

/// `len` zero bytes.
pub open spec fn zeros(len: nat) -> Seq<u8> {
    Seq::new(len, |i: int| 0u8)
}

/// A flash image backed by a file.
pub struct FileFlash {
    state: Vec<u8>,
}

impl View for FileFlash {
    type V = Seq<u8>;

    closed spec fn view(&self) -> Seq<u8> {
        self.state@
    }
}

impl FileFlash {
    /// The image has the size of the flash.
    pub open spec fn wf(&self) -> bool {
        self@.len() == FLASH_SIZE
    }

    /// An image holding the previously saved contents, or all zeros when
    /// nothing was saved yet.
    pub fn new(saved: Option<&[u8]>) -> (f: Self)
        requires
            saved matches Some(c) ==> c@.len() == FLASH_SIZE,
        ensures
            f.wf(),
            saved matches Some(c) ==> f@ == c@,
            saved is None ==> f@ == zeros(FLASH_SIZE as nat),
    {
        let mut state: Vec<u8> = vec![0u8; FLASH_SIZE];
        assert(state@ =~= zeros(FLASH_SIZE as nat));
        match saved {
            Some(contents) => {
                let mut i: usize = 0;
                while i < FLASH_SIZE
                    invariant
                        contents@.len() == FLASH_SIZE,
                        state@.len() == FLASH_SIZE,
                        i <= FLASH_SIZE,
                        forall|j: int| 0 <= j < i ==> state@[j] == contents@[j],
                    decreases FLASH_SIZE - i,
                {
                    state.set(i, contents[i]);
                    i += 1;
                }
                assert(state@ =~= contents@);
            },
            None => {},
        }
        FileFlash { state }
    }

    /// Copy the bytes at `off` into `buf`; returns the number of bytes read.
    pub fn read(&self, off: usize, buf: &mut [u8]) -> (n: usize)
        requires
            self.wf(),
            off + old(buf)@.len() <= FLASH_SIZE,
        ensures
            n == old(buf)@.len(),
            final(buf)@ == self@.subrange(off as int, off + n),
    {
        let len = buf.len();
        let mut i: usize = 0;
        while i < len
            invariant
                self.wf(),
                off + len <= FLASH_SIZE,
                len == buf@.len(),
                i <= len,
                forall|j: int| 0 <= j < i ==> buf@[j] == self@[off + j],
            decreases len - i,
        {
            buf[i] = self.state[i + off];
            i += 1;
        }
        assert(buf@ =~= self@.subrange(off as int, (off + len) as int));
        len
    }

    /// Overwrite the bytes at `off` with `data`; returns the number of bytes
    /// written.
    pub fn write(&mut self, off: usize, data: &[u8]) -> (n: usize)
        requires
            old(self).wf(),
            off + data@.len() <= FLASH_SIZE,
        ensures
            final(self).wf(),
            n == data@.len(),
            final(self)@ == written(old(self)@, off as nat, data@),
    {
        let len = data.len();
        let ghost before = self@;
        let mut i: usize = 0;
        while i < len
            invariant
                before.len() == FLASH_SIZE,
                off + len <= FLASH_SIZE,
                len == data@.len(),
                i <= len,
                self@.len() == FLASH_SIZE,
                forall|j: int| 0 <= j < off ==> self@[j] == before[j],
                forall|j: int| 0 <= j < i ==> self@[off + j] == data@[j],
                forall|j: int| off + i <= j < FLASH_SIZE ==> self@[j] == before[j],
            decreases len - i,
        {
            self.state.set(i + off, data[i]);
            i += 1;
        }
        assert(self@ =~= written(before, off as nat, data@));
        len
    }

    /// Zero the `len` bytes at `off`; returns the number of bytes erased.
    pub fn erase(&mut self, off: usize, len: usize) -> (n: usize)
        requires
            old(self).wf(),
            off + len <= FLASH_SIZE,
        ensures
            final(self).wf(),
            n == len,
            final(self)@ == written(old(self)@, off as nat, zeros(len as nat)),
            forall|j: int| off <= j < off + len ==> #[trigger] final(self)@[j] == 0u8,
            forall|j: int|
                0 <= j < FLASH_SIZE && !(off <= j < off + len) ==> #[trigger] final(self)@[j]
                    == old(self)@[j],
    {
        let ghost before = self@;
        let mut i: usize = 0;
        while i < len
            invariant
                before.len() == FLASH_SIZE,
                off + len <= FLASH_SIZE,
                i <= len,
                self@.len() == FLASH_SIZE,
                forall|j: int| 0 <= j < off ==> self@[j] == before[j],
                forall|j: int| off <= j < off + i ==> self@[j] == 0u8,
                forall|j: int| off + i <= j < FLASH_SIZE ==> self@[j] == before[j],
            decreases len - i,
        {
            self.state.set(i + off, 0);
            i += 1;
        }
        assert(self@ =~= written(before, off as nat, zeros(len as nat)));
        len
    }

    /// The whole image, as it is saved to the file.
    pub fn contents(&self) -> (c: &[u8])
        ensures
            c@ == self@,
    {
        self.state.as_slice()
    }
}

/// The image holds exactly the blocks the filesystem is told about.
pub proof fn lemma_flash_matches_geometry()
    ensures
        FLASH_SIZE == BLOCK_SIZE * BLOCK_COUNT,
{
}

/// A read gives back what the last write to the same place wrote, and a write
/// changes nothing outside the written range.
pub proof fn lemma_read_after_write(image: Seq<u8>, off: nat, data: Seq<u8>)
    requires
        off + data.len() <= image.len(),
    ensures
        written(image, off, data).len() == image.len(),
        written(image, off, data).subrange(off as int, (off + data.len()) as int) == data,
        forall|i: int|
            0 <= i < image.len() && !(off <= i < off + data.len()) ==> #[trigger] written(
                image,
                off,
                data,
            )[i] == image[i],
{
    assert(written(image, off, data).subrange(off as int, (off + data.len()) as int) =~= data);
}

/// The image after a sequence of writes `(offset, bytes)`, applied in order;
/// an erase is the write of zeros.
pub open spec fn written_all(image: Seq<u8>, writes: Seq<(nat, Seq<u8>)>) -> Seq<u8>
    decreases writes.len(),
{
    if writes.len() == 0 {
        image
    } else {
        written_all(written(image, writes[0].0, writes[0].1), writes.drop_first())
    }
}

/// Each write lies inside an image of `size` bytes and leaves the `len` bytes
/// at `off` alone.
pub open spec fn writes_avoid(writes: Seq<(nat, Seq<u8>)>, size: nat, off: nat, len: nat) -> bool {
    forall|i: int|
        0 <= i < writes.len() ==> {
            &&& (#[trigger] writes[i]).0 + writes[i].1.len() <= size
            &&& (writes[i].0 + writes[i].1.len() <= off || off + len <= writes[i].0)
        }
}

proof fn lemma_untouched(image: Seq<u8>, off: nat, len: nat, writes: Seq<(nat, Seq<u8>)>)
    requires
        off + len <= image.len(),
        writes_avoid(writes, image.len(), off, len),
    ensures
        written_all(image, writes).len() == image.len(),
        written_all(image, writes).subrange(off as int, (off + len) as int) == image.subrange(
            off as int,
            (off + len) as int,
        ),
    decreases writes.len(),
{
    if writes.len() > 0 {
        let w = writes[0];
        lemma_read_after_write(image, w.0, w.1);
        let next = written(image, w.0, w.1);
        assert(next.subrange(off as int, (off + len) as int) =~= image.subrange(
            off as int,
            (off + len) as int,
        ));
        assert forall|i: int| 0 <= i < writes.drop_first().len() implies {
            &&& (#[trigger] writes.drop_first()[i]).0 + writes.drop_first()[i].1.len()
                <= next.len()
            &&& (writes.drop_first()[i].0 + writes.drop_first()[i].1.len() <= off || off + len
                <= writes.drop_first()[i].0)
        } by {
            assert(writes.drop_first()[i] == writes[i + 1]);
        }
        lemma_untouched(next, off, len, writes.drop_first());
    }
}

/// A read gives back what a write wrote, whatever writes and erases come
/// later, as long as none of them touches the range read.
pub proof fn lemma_read_after_later_writes(
    image: Seq<u8>,
    off: nat,
    data: Seq<u8>,
    later: Seq<(nat, Seq<u8>)>,
)
    requires
        off + data.len() <= image.len(),
        writes_avoid(later, image.len(), off, data.len()),
    ensures
        written_all(written(image, off, data), later).len() == image.len(),
        written_all(written(image, off, data), later).subrange(off as int, (off + data.len()) as int)
            == data,
{
    lemma_read_after_write(image, off, data);
    lemma_untouched(written(image, off, data), off, data.len(), later);
}

/// Erasing sets every byte of the range to 0, whatever its length (a whole
/// block included), keeps the image's size, and leaves every other byte as it
/// was.
pub proof fn lemma_erase_zeroes(image: Seq<u8>, off: nat, len: nat)
    requires
        off + len <= image.len(),
    ensures
        written(image, off, zeros(len)).len() == image.len(),
        forall|j: int| off <= j < off + len ==> #[trigger] written(image, off, zeros(len))[j] == 0u8,
        forall|j: int|
            0 <= j < image.len() && !(off <= j < off + len) ==> #[trigger] written(
                image,
                off,
                zeros(len),
            )[j] == image[j],
{
    lemma_read_after_write(image, off, zeros(len));
    assert forall|j: int| off <= j < off + len implies #[trigger] written(image, off, zeros(len))[j]
        == 0u8 by {
        assert(written(image, off, zeros(len))[j] == zeros(len)[j - off]);
    }
}

/// Erased bytes read back as zeros.
pub proof fn lemma_read_after_erase(image: Seq<u8>, off: nat, len: nat)
    requires
        off + len <= image.len(),
    ensures
        written(image, off, zeros(len)).subrange(off as int, (off + len) as int) == zeros(len),
{
    lemma_read_after_write(image, off, zeros(len));
}

/// A later write to the same range replaces an earlier one.
pub proof fn lemma_write_overwrites(image: Seq<u8>, off: nat, first: Seq<u8>, second: Seq<u8>)
    requires
        off + first.len() <= image.len(),
        first.len() == second.len(),
    ensures
        written(written(image, off, first), off, second) == written(image, off, second),
{
    assert(written(written(image, off, first), off, second) =~= written(image, off, second));
}

} // verus!
