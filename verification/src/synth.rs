//! The synthetic signal source.
//!
//! A stand-in capture collaborator for sessions without an input
//! device: it reports a fixed sample rate and block length, and note
//! names parse to MIDI-style semitone numbers for tone generation.

use vstd::prelude::*;

use crate::buffer::Source;

verus! {

/// A synthetic source: fixed sample rate and block length.
pub struct SynthSource {
    sample_rate: u32,
    sample_size: usize,
}

impl SynthSource {
    pub closed spec fn spec_sample_rate(&self) -> u32 {
        self.sample_rate
    }

    pub closed spec fn spec_sample_size(&self) -> usize {
        self.sample_size
    }

    pub fn new(sample_rate: u32, sample_size: usize) -> (r: SynthSource)
        ensures
            r.spec_sample_rate() == sample_rate,
            r.spec_sample_size() == sample_size,
    {
        SynthSource { sample_rate, sample_size }
    }
}

impl Source for SynthSource {
    fn sample_rate(&self) -> u32 {
        self.sample_rate
    }

    fn sample_size(&self) -> usize {
        self.sample_size
    }
}

/// A note as a MIDI-style semitone number: 12 per octave, C of octave
/// -1 at zero.
#[derive(Clone, Copy, Debug, PartialEq, Eq, Structural)]
pub struct Note(pub u8);

/// The semitone offset a note name denotes within its octave, sharps
/// and flats included (`Cb` sits at 6, as this tuning table has it).
pub open spec fn semitone_spec(note: Seq<char>) -> Option<int> {
    if note.len() == 1 {
        if note[0] == 'C' {
            Some(0int)
        } else if note[0] == 'D' {
            Some(2int)
        } else if note[0] == 'E' {
            Some(4int)
        } else if note[0] == 'F' {
            Some(5int)
        } else if note[0] == 'G' {
            Some(7int)
        } else if note[0] == 'A' {
            Some(9int)
        } else if note[0] == 'B' {
            Some(11int)
        } else {
            None
        }
    } else if note.len() == 2 && note[1] == '#' {
        if note[0] == 'C' {
            Some(1int)
        } else if note[0] == 'D' {
            Some(3int)
        } else if note[0] == 'F' {
            Some(6int)
        } else if note[0] == 'G' {
            Some(8int)
        } else if note[0] == 'A' {
            Some(10int)
        } else {
            None
        }
    } else if note.len() == 2 && note[1] == 'b' {
        if note[0] == 'D' {
            Some(1int)
        } else if note[0] == 'E' {
            Some(3int)
        } else if note[0] == 'C' {
            Some(6int)
        } else if note[0] == 'A' {
            Some(8int)
        } else if note[0] == 'B' {
            Some(10int)
        } else {
            None
        }
    } else {
        None
    }
}

/// Whether `c` is a decimal digit.
pub open spec fn is_digit(c: char) -> bool {
    '0' <= c && c <= '9'
}

/// Value of a decimal digit string, most significant first.
pub open spec fn digits_value(s: Seq<char>) -> int
    decreases s.len(),
{
    if s.len() == 0 {
        0
    } else {
        digits_value(s.drop_last()) * 10 + (s.last() as int - '0' as int)
    }
}

/// Every character of `s` is a decimal digit.
pub open spec fn all_digits(s: Seq<char>) -> bool {
    forall|i: int| 0 <= i < s.len() ==> is_digit(#[trigger] s[i])
}

/// The octave an octave suffix denotes: a signed decimal number within
/// the byte-sized range, and zero for anything unparsable.
pub open spec fn octave_spec(s: Seq<char>) -> int {
    if s.len() >= 2 && s[0] == '-' && all_digits(s.skip(1)) && digits_value(s.skip(1)) <= 128 {
        -digits_value(s.skip(1))
    } else if s.len() >= 2 && s[0] == '+' && all_digits(s.skip(1)) && digits_value(s.skip(1))
        <= 127 {
        digits_value(s.skip(1))
    } else if s.len() >= 1 && all_digits(s) && digits_value(s) <= 127 {
        digits_value(s)
    } else {
        0
    }
}

/// The note a name denotes, if any: the name's head (two characters
/// when the whole name has three, one otherwise) picks the semitone,
/// the tail the octave, and the note number is `12 * (octave + 1)`
/// plus the semitone — `None` for unknown heads and for numbers
/// outside `0..=255`.
pub open spec fn parse_spec(name: Seq<char>) -> Option<Note> {
    let head_len: int = if name.len() == 3 {
        2
    } else {
        1
    };
    let head = name.take(head_len);
    let tail = name.skip(head_len);
    match semitone_spec(head) {
        None => None,
        Some(semitone) => {
            let val = 12 * (octave_spec(tail) + 1) + semitone;
            if 0 <= val <= 255 {
                Some(Note(val as u8))
            } else {
                None
            }
        },
    }
}

impl Note {
    /// Parses a note name such as `A4`, `C#3` or `Eb-1`.
    pub fn parse(name: &str) -> (r: Option<Note>)
        requires
            name@.len() >= 1,
        ensures
            r == parse_spec(name@),
    {
        let len: usize = name.unicode_len();
        let head_len: usize = if len == 3 {
            2
        } else {
            1
        };
        if len < head_len {
            proof {
                assert(semitone_spec(name@.take(head_len as int)) is None);
            }
            return None;
        }
        let c0: char = name.get_char(0);
        let semitone: i32 = if head_len == 2 {
            let c1: char = name.get_char(1);
            proof {
                assert(name@.take(2)[0] == name@[0] && name@.take(2)[1] == name@[1]);
            }
            if c1 == '#' {
                if c0 == 'C' {
                    1
                } else if c0 == 'D' {
                    3
                } else if c0 == 'F' {
                    6
                } else if c0 == 'G' {
                    8
                } else if c0 == 'A' {
                    10
                } else {
                    return None;
                }
            } else if c1 == 'b' {
                if c0 == 'D' {
                    1
                } else if c0 == 'E' {
                    3
                } else if c0 == 'C' {
                    6
                } else if c0 == 'A' {
                    8
                } else if c0 == 'B' {
                    10
                } else {
                    return None;
                }
            } else {
                return None;
            }
        } else {
            proof {
                assert(name@.take(1)[0] == name@[0]);
            }
            if c0 == 'C' {
                0
            } else if c0 == 'D' {
                2
            } else if c0 == 'E' {
                4
            } else if c0 == 'F' {
                5
            } else if c0 == 'G' {
                7
            } else if c0 == 'A' {
                9
            } else if c0 == 'B' {
                11
            } else {
                return None;
            }
        };
        proof {
            assert(semitone_spec(name@.take(head_len as int)) == Some(semitone as int));
        }
        let octave: i32 = parse_octave(name, head_len, len);
        let val: i32 = 12 * (octave + 1) + semitone;
        if 0 <= val && val <= 255 {
            Some(Note(val as u8))
        } else {
            None
        }
    }
}

/// Parses the octave suffix `name[from..len]` with the lenient rules
/// of [`octave_spec`]: unparsable or out-of-range suffixes read as 0.
fn parse_octave(name: &str, from: usize, len: usize) -> (r: i32)
    requires
        from <= len,
        name@.len() == len,
    ensures
        r == octave_spec(name@.skip(from as int)),
        -128 <= r <= 127,
{
    let ghost tail = name@.skip(from as int);
    if from >= len {
        proof {
            assert(octave_spec(tail) == 0);
        }
        return 0;
    }
    let first: char = name.get_char(from);
    proof {
        assert(tail[0] == name@[from as int]);
    }
    let (neg, digits_from): (bool, usize) = if first == '-' {
        (true, from + 1)
    } else if first == '+' {
        (false, from + 1)
    } else {
        (false, from)
    };
    let ghost digits = name@.skip(digits_from as int);
    proof {
        if digits_from == from + 1 {
            assert(digits =~= tail.skip(1));
        } else {
            assert(digits =~= tail);
        }
    }
    if digits_from >= len {
        proof {
            assert(digits.len() == 0);
            assert(!(tail.len() >= 2));
            assert(octave_spec(tail) == 0);
        }
        return 0;
    }
    let mut acc: u32 = 0;
    let mut ok: bool = true;
    let mut i: usize = digits_from;
    while i < len
        invariant
            digits_from <= i <= len,
            name@.len() == len,
            digits == name@.skip(digits_from as int),
            ok ==> all_digits(digits.take(i - digits_from)) && acc == digits_value(
                digits.take(i - digits_from),
            ) && acc <= 128,
            !ok ==> !(all_digits(digits) && digits_value(digits) <= 128),
        decreases len - i,
    {
        let c: char = name.get_char(i);
        proof {
            assert(digits[i - digits_from] == name@[i as int]);
        }
        if ok {
            if '0' <= c && c <= '9' {
                let d: u32 = (c as u32) - ('0' as u32);
                let next: u32 = acc * 10 + d;
                proof {
                    assert(digits.take(i + 1 - digits_from).drop_last() =~= digits.take(
                        i - digits_from,
                    ));
                    assert(digits.take(i + 1 - digits_from).last() == digits[i - digits_from]);
                }
                if next > 128 {
                    ok = false;
                    proof {
                        lemma_digits_prefix_large(digits, i + 1 - digits_from);
                    }
                } else {
                    acc = next;
                }
            } else {
                ok = false;
                proof {
                    assert(!is_digit(digits[i - digits_from]));
                }
            }
        }
        i = i + 1;
    }
    proof {
        if ok {
            assert(digits.take(len - digits_from) =~= digits);
        }
    }
    if !ok {
        proof {
            assert(octave_spec(tail) == 0);
        }
        return 0;
    }
    if neg {
        proof {
            assert(tail.len() >= 2 && tail[0] == '-');
            assert(tail.skip(1) =~= digits);
        }
        return -(acc as i32);
    }
    if first == '+' {
        if acc <= 127 {
            proof {
                assert(tail.len() >= 2 && tail[0] == '+');
                assert(tail.skip(1) =~= digits);
            }
            return acc as i32;
        } else {
            proof {
                assert(octave_spec(tail) == 0);
            }
            return 0;
        }
    }
    if acc <= 127 {
        proof {
            assert(tail =~= digits);
        }
        return acc as i32;
    }
    proof {
        assert(octave_spec(tail) == 0);
    }
    0
}

/// Once a digit prefix exceeds the byte range, every longer prefix
/// does too.
proof fn lemma_digits_prefix_large(digits: Seq<char>, upto: int)
    requires
        0 < upto <= digits.len(),
        digits_value(digits.take(upto)) > 128,
        all_digits(digits.take(upto)),
    ensures
        !(all_digits(digits) && digits_value(digits) <= 128),
    decreases digits.len() - upto,
{
    if upto == digits.len() {
        assert(digits.take(upto) =~= digits);
    } else {
        if all_digits(digits) {
            assert(digits.take(upto + 1).drop_last() =~= digits.take(upto));
            assert(is_digit(digits.take(upto + 1).last()));
            assert(digits_value(digits.take(upto + 1)) > 128) by {
                assert(digits.take(upto + 1).last() as int - '0' as int >= 0);
            }
            lemma_digits_prefix_large(digits, upto + 1);
        }
    }
}

} // verus!
