//! Per-object export settings: whether an object is included in the story export, and
//! whether its title and a break after it are shown (by default, always or never).
use vstd::prelude::*;

verus! {

pub const INCLUDE: u64 = 0b0000_0000_0000_0001;
pub const OVERRIDE_INCLUDE_TITLE: u64 = 0b0000_0000_0000_0010;
pub const INCLUDE_TITLE: u64 = 0b0000_0000_0000_0100;
pub const OVERRIDE_BREAK_AT_END: u64 = 0b0000_0000_0000_1000;
pub const BREAK_AT_END: u64 = 0b0000_0000_0001_0000;

/// Whether a title or a break is shown: as the project's export settings say, or
/// always, or never.
#[derive(Debug, PartialEq, Eq, Clone, Copy, Structural)]
pub enum IncludeOptions {
    Default,
    Always,
    Never,
}

impl Default for IncludeOptions {
    fn default() -> (r: Self)
        ensures
            r == IncludeOptions::Default,
    {
        IncludeOptions::Default
    }
}

/// The export flags of an object, stored as bits. Bits beyond the known ones are kept
/// as they are, so that files written by later versions survive a round trip.
#[derive(Debug, Clone, Copy, PartialEq, Eq, Structural)]
pub struct CompileStatus {
    bits: u64,
}

/// The option that a pair of bits (`override`, `value`) stands for.
pub open spec fn option_of(bits: u64, override_flag: u64, value_flag: u64) -> IncludeOptions {
    if bits & (override_flag | value_flag) == (override_flag | value_flag) {
        IncludeOptions::Always
    } else if bits & override_flag == override_flag {
        IncludeOptions::Never
    } else {
        IncludeOptions::Default
    }
}

/// The bits after setting the option `o` with the pair (`override`, `value`).
pub open spec fn with_option(bits: u64, override_flag: u64, value_flag: u64, o: IncludeOptions) -> u64 {
    match o {
        IncludeOptions::Default => bits & !override_flag,
        IncludeOptions::Always => bits | override_flag | value_flag,
        IncludeOptions::Never => (bits | override_flag) & !value_flag,
    }
}

impl View for CompileStatus {
    type V = u64;

    closed spec fn view(&self) -> u64 {
        self.bits
    }
}

impl Default for CompileStatus {
    fn default() -> (r: Self)
        ensures
            r@ == INCLUDE,
    {
        CompileStatus { bits: INCLUDE }
    }
}

impl CompileStatus {
    pub fn from_bits_retain(bits: u64) -> (r: Self)
        ensures
            r@ == bits,
    {
        CompileStatus { bits }
    }

    pub fn bits(&self) -> (r: u64)
        ensures
            r == self@,
    {
        self.bits
    }

    /// Whether every bit of `flags` is set.
    pub fn contains(&self, flags: u64) -> (r: bool)
        ensures
            r == (self@ & flags == flags),
    {
        self.bits & flags == flags
    }

    /// Sets (or clears) every bit of `flags`.
    pub fn set(&mut self, flags: u64, value: bool)
        ensures
            final(self)@ == if value { old(self)@ | flags } else { old(self)@ & !flags },
    {
        if value {
            self.bits = self.bits | flags;
        } else {
            self.bits = self.bits & !flags;
        }
    }

    pub fn include_title(&self) -> (r: IncludeOptions)
        ensures
            r == option_of(self@, OVERRIDE_INCLUDE_TITLE, INCLUDE_TITLE),
    {
        if self.contains(OVERRIDE_INCLUDE_TITLE | INCLUDE_TITLE) {
            IncludeOptions::Always
        } else if self.contains(OVERRIDE_INCLUDE_TITLE) {
            IncludeOptions::Never
        } else {
            IncludeOptions::Default
        }
    }

    pub fn set_include_title(&mut self, options: IncludeOptions)
        ensures
            final(self)@ == with_option(old(self)@, OVERRIDE_INCLUDE_TITLE, INCLUDE_TITLE, options),
    {
        let ghost b = self.bits;
        match options {
            IncludeOptions::Default => self.set(OVERRIDE_INCLUDE_TITLE, false),
            IncludeOptions::Always => {
                self.set(OVERRIDE_INCLUDE_TITLE, true);
                self.set(INCLUDE_TITLE, true);
                assert(b | OVERRIDE_INCLUDE_TITLE | INCLUDE_TITLE == (b | OVERRIDE_INCLUDE_TITLE) | INCLUDE_TITLE) by (bit_vector);
            },
            IncludeOptions::Never => {
                self.set(OVERRIDE_INCLUDE_TITLE, true);
                self.set(INCLUDE_TITLE, false);
            },
        }
    }

    pub fn break_at_end(&self) -> (r: IncludeOptions)
        ensures
            r == option_of(self@, OVERRIDE_BREAK_AT_END, BREAK_AT_END),
    {
        if self.contains(OVERRIDE_BREAK_AT_END | BREAK_AT_END) {
            IncludeOptions::Always
        } else if self.contains(OVERRIDE_BREAK_AT_END) {
            IncludeOptions::Never
        } else {
            IncludeOptions::Default
        }
    }

    pub fn set_break_at_end(&mut self, options: IncludeOptions)
        ensures
            final(self)@ == with_option(old(self)@, OVERRIDE_BREAK_AT_END, BREAK_AT_END, options),
    {
        let ghost b = self.bits;
        match options {
            IncludeOptions::Default => self.set(OVERRIDE_BREAK_AT_END, false),
            IncludeOptions::Always => {
                self.set(OVERRIDE_BREAK_AT_END, true);
                self.set(BREAK_AT_END, true);
                assert(b | OVERRIDE_BREAK_AT_END | BREAK_AT_END == (b | OVERRIDE_BREAK_AT_END) | BREAK_AT_END) by (bit_vector);
            },
            IncludeOptions::Never => {
                self.set(OVERRIDE_BREAK_AT_END, true);
                self.set(BREAK_AT_END, false);
            },
        }
    }
}

/// Setting the title option and reading it back gives the option that was set; the break
/// option and every other bit stay as they were.
pub proof fn title_option_read_after_write(bits: u64, o: IncludeOptions)
    ensures
        option_of(with_option(bits, OVERRIDE_INCLUDE_TITLE, INCLUDE_TITLE, o), OVERRIDE_INCLUDE_TITLE, INCLUDE_TITLE) == o,
        option_of(with_option(bits, OVERRIDE_INCLUDE_TITLE, INCLUDE_TITLE, o), OVERRIDE_BREAK_AT_END, BREAK_AT_END)
            == option_of(bits, OVERRIDE_BREAK_AT_END, BREAK_AT_END),
        with_option(bits, OVERRIDE_INCLUDE_TITLE, INCLUDE_TITLE, o) & !(OVERRIDE_INCLUDE_TITLE | INCLUDE_TITLE)
            == bits & !(OVERRIDE_INCLUDE_TITLE | INCLUDE_TITLE),
{
    let b = bits;
    assert(
        ((b & !2u64) & (2u64 | 4u64) != (2u64 | 4u64)) &&
        ((b & !2u64) & 2u64 != 2u64) &&
        ((b | 2u64 | 4u64) & (2u64 | 4u64) == (2u64 | 4u64)) &&
        (((b | 2u64) & !4u64) & (2u64 | 4u64) != (2u64 | 4u64)) &&
        (((b | 2u64) & !4u64) & 2u64 == 2u64) &&
        ((b & !2u64) & (8u64 | 16u64) == b & (8u64 | 16u64)) &&
        ((b & !2u64) & 8u64 == b & 8u64) &&
        ((b | 2u64 | 4u64) & (8u64 | 16u64) == b & (8u64 | 16u64)) &&
        ((b | 2u64 | 4u64) & 8u64 == b & 8u64) &&
        (((b | 2u64) & !4u64) & (8u64 | 16u64) == b & (8u64 | 16u64)) &&
        (((b | 2u64) & !4u64) & 8u64 == b & 8u64) &&
        ((b & !2u64) & !(2u64 | 4u64) == b & !(2u64 | 4u64)) &&
        ((b | 2u64 | 4u64) & !(2u64 | 4u64) == b & !(2u64 | 4u64)) &&
        (((b | 2u64) & !4u64) & !(2u64 | 4u64) == b & !(2u64 | 4u64))
    ) by (bit_vector);
}

/// Setting the break option and reading it back gives the option that was set; the title
/// option and every other bit stay as they were.
pub proof fn break_option_read_after_write(bits: u64, o: IncludeOptions)
    ensures
        option_of(with_option(bits, OVERRIDE_BREAK_AT_END, BREAK_AT_END, o), OVERRIDE_BREAK_AT_END, BREAK_AT_END) == o,
        option_of(with_option(bits, OVERRIDE_BREAK_AT_END, BREAK_AT_END, o), OVERRIDE_INCLUDE_TITLE, INCLUDE_TITLE)
            == option_of(bits, OVERRIDE_INCLUDE_TITLE, INCLUDE_TITLE),
        with_option(bits, OVERRIDE_BREAK_AT_END, BREAK_AT_END, o) & !(OVERRIDE_BREAK_AT_END | BREAK_AT_END)
            == bits & !(OVERRIDE_BREAK_AT_END | BREAK_AT_END),
{
    let b = bits;
    assert(
        ((b & !8u64) & (8u64 | 16u64) != (8u64 | 16u64)) &&
        ((b & !8u64) & 8u64 != 8u64) &&
        ((b | 8u64 | 16u64) & (8u64 | 16u64) == (8u64 | 16u64)) &&
        (((b | 8u64) & !16u64) & (8u64 | 16u64) != (8u64 | 16u64)) &&
        (((b | 8u64) & !16u64) & 8u64 == 8u64) &&
        ((b & !8u64) & (2u64 | 4u64) == b & (2u64 | 4u64)) &&
        ((b & !8u64) & 2u64 == b & 2u64) &&
        ((b | 8u64 | 16u64) & (2u64 | 4u64) == b & (2u64 | 4u64)) &&
        ((b | 8u64 | 16u64) & 2u64 == b & 2u64) &&
        (((b | 8u64) & !16u64) & (2u64 | 4u64) == b & (2u64 | 4u64)) &&
        (((b | 8u64) & !16u64) & 2u64 == b & 2u64) &&
        ((b & !8u64) & !(8u64 | 16u64) == b & !(8u64 | 16u64)) &&
        ((b | 8u64 | 16u64) & !(8u64 | 16u64) == b & !(8u64 | 16u64)) &&
        (((b | 8u64) & !16u64) & !(8u64 | 16u64) == b & !(8u64 | 16u64))
    ) by (bit_vector);
}

} // verus!
