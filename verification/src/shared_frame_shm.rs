//! The shared frame of an embedded client: the name and layout of its
//! shared memory segment and the writer's side of its sequence lock.

use crate::text::push_chars;
use vstd::prelude::*;

verus! {

/// Bytes of the largest frame that a segment holds: 3840 by 2160 pixels of
/// four bytes.
pub const MAX_PIXELS: usize = 33177600;

/// Bytes of the header: a 64-bit serial, then width and height in 32 bits
/// each.
pub const HEADER_SIZE: usize = 16;

/// Bytes of a segment.
pub const SHM_SIZE: usize = 33177616;

/// Name of the segment of the application `app_id`.
pub fn shm_name(app_id: &str) -> (name: String)
    ensures
        name@ == "/trixie-embed-"@ + app_id@,
{
    let mut name = String::new();
    push_chars(&mut name, "/trixie-embed-");
    push_chars(&mut name, app_id);
    assert(name@ =~= "/trixie-embed-"@ + app_id@);
    name
}

/// The header of a segment as it is read at one moment.
#[derive(Debug, Clone, Copy, PartialEq, Eq, Structural)]
pub struct ShmHeader {
    /// Odd while the writer is at work, even when the frame is whole.
    pub serial: u64,
    pub width: u32,
    pub height: u32,
}

pub open spec fn min3(a: int, b: int, c: int) -> int {
    if a <= b && a <= c {
        a
    } else if b <= c {
        b
    } else {
        c
    }
}

/// Number of bytes that are copied for a frame: the frame's size, but no
/// more than the segment holds nor than the caller has.
pub fn frame_bytes(width: u32, height: u32, available: usize) -> (n: usize)
    ensures
        n == min3(width as int * height as int * 4, MAX_PIXELS as int, available as int),
{
    assert(width * height * 4 <= 0xFFFF_FFFF * 0xFFFF_FFFF * 4) by (nonlinear_arith)
        requires
            0 <= width <= 0xFFFF_FFFF,
            0 <= height <= 0xFFFF_FFFF,
    ;
    let want: u128 = width as u128 * height as u128 * 4;
    let capped: usize = if want < MAX_PIXELS as u128 { want as usize } else { MAX_PIXELS };
    if capped < available {
        capped
    } else {
        available
    }
}

/// The serial that the writer stores before it touches the frame: the last
/// serial made odd.
pub fn serial_writing(prev: u64) -> (s: u64)
    requires
        prev % 2 == 0,
    ensures
        s == prev + 1,
        s == prev | 1,
{
    assert(prev | 1 == prev + 1) by (bit_vector)
        requires
            prev % 2 == 0,
    ;
    prev | 1
}

/// The serial that the writer stores when the frame is whole: the next
/// even number after the last serial.
pub fn serial_written(prev: u64) -> (s: u64)
    requires
        prev % 2 == 0,
        prev <= u64::MAX - 3,
    ensures
        s == prev + 2,
        s % 2 == 0,
{
    prev + 2
}

// ── the protocol ─────────────────────────────────────────────────────────────

/// What a segment holds at one moment.
pub struct SharedFrame {
    pub serial: nat,
    pub width: u32,
    pub height: u32,
    pub pixels: Seq<u8>,
}

/// One step of the writer.
pub enum WriterStep {
    /// Store the odd serial.
    Begin,
    /// Store the size of the new frame.
    Size(u32, u32),
    /// Store some byte of the new frame.
    Pixel(int, u8),
    /// Store the next even serial.
    End,
}

impl SharedFrame {
    /// The segment after a step of the writer. The writer begins only
    /// between frames, and touches the frame and ends only while the serial
    /// is odd.
    pub open spec fn step(self, s: WriterStep) -> SharedFrame {
        match s {
            WriterStep::Begin => if self.serial % 2 == 0 {
                SharedFrame { serial: self.serial + 1, ..self }
            } else {
                self
            },
            WriterStep::Size(w, h) => if self.serial % 2 == 1 {
                SharedFrame { width: w, height: h, ..self }
            } else {
                self
            },
            WriterStep::Pixel(i, b) => if self.serial % 2 == 1 && 0 <= i < self.pixels.len() {
                SharedFrame { pixels: self.pixels.update(i, b), ..self }
            } else {
                self
            },
            WriterStep::End => if self.serial % 2 == 1 {
                SharedFrame { serial: self.serial + 1, ..self }
            } else {
                self
            },
        }
    }

    /// The segment after the first `k` steps.
    pub open spec fn run(self, steps: Seq<WriterStep>, k: nat) -> SharedFrame
        decreases k,
    {
        if k == 0 || k > steps.len() {
            self
        } else {
            self.run(steps, (k - 1) as nat).step(steps[k - 1])
        }
    }
}

proof fn lemma_serial_grows(start: SharedFrame, steps: Seq<WriterStep>, i: nat, j: nat)
    requires
        i <= j <= steps.len(),
    ensures
        start.run(steps, i).serial <= start.run(steps, j).serial,
        start.run(steps, i).serial == start.run(steps, j).serial && start.run(steps, i).serial % 2
            == 0 ==> start.run(steps, j) == start.run(steps, i),
    decreases j - i,
{
    if i < j {
        lemma_serial_grows(start, steps, i, (j - 1) as nat);
    }
}

/// A reader that finds an even serial, reads the frame however slowly,
/// and then finds the same serial again has read a frame that no writer
/// touched meanwhile: at every moment in between the segment was as it was
/// at the first look.
pub proof fn law_seqlock(start: SharedFrame, steps: Seq<WriterStep>, first: nat, last: nat, at: nat)
    requires
        first <= at <= last <= steps.len(),
        start.run(steps, first).serial % 2 == 0,
        start.run(steps, last).serial == start.run(steps, first).serial,
    ensures
        start.run(steps, at) == start.run(steps, first),
{
    lemma_serial_grows(start, steps, first, at);
    lemma_serial_grows(start, steps, at, last);
}

} // verus!
