//! Classification of directory entries.
//!
//! A file name is classified by its extension (the part after the final `.`,
//! compared case-sensitively against a fixed lower-case audio set) and, when
//! the extension is recognised, by whether its leading bytes form a decimal
//! track number.

use vstd::prelude::*;

use crate::digits::{
    digit_prefix_len, digits_value, is_ascii_digit, lemma_digit_prefix_len_is, parse_digits_range,
};

verus! {

/// Index of the last `.` byte of `s`, or `-1` when `s` has none.
pub open spec fn last_dot_index(s: Seq<u8>) -> int
    decreases s.len(),
{
    if s.len() == 0 {
        -1
    } else if s.last() == 46 {
        s.len() - 1
    } else {
        last_dot_index(s.drop_last())
    }
}

/// The extension of a bare file name: the part after the final `.`.
/// A name with no `.`, and a name whose only `.` is its first byte (a
/// hidden file such as `.config`), have no extension.
pub open spec fn extension_spec(name: Seq<u8>) -> Option<Seq<u8>> {
    let i = last_dot_index(name);
    if i <= 0 {
        Option::None
    } else {
        Option::Some(name.skip(i + 1))
    }
}

/// The fixed set of recognised audio extensions, lower case only.
pub open spec fn is_audio_ext_spec(e: Seq<u8>) -> bool {
    ||| e == seq!['m' as u8, 'p' as u8, '3' as u8]
    ||| e == seq!['f' as u8, 'l' as u8, 'a' as u8, 'c' as u8]
    ||| e == seq!['o' as u8, 'p' as u8, 'u' as u8, 's' as u8]
    ||| e == seq!['a' as u8, 'p' as u8, 'e' as u8]
    ||| e == seq!['o' as u8, 'g' as u8, 'g' as u8]
    ||| e == seq!['m' as u8, 'k' as u8, 'a' as u8]
    ||| e == seq!['a' as u8, 'a' as u8, 'c' as u8]
    ||| e == seq!['a' as u8, 'l' as u8, 'a' as u8, 'c' as u8]
    ||| e == seq!['m' as u8, '4' as u8, 'a' as u8]
    ||| e == seq!['c' as u8, 'a' as u8, 'f' as u8]
    ||| e == seq!['w' as u8, 'm' as u8, 'a' as u8]
    ||| e == seq!['w' as u8, 'a' as u8, 'v' as u8]
}

/// The track order read from the leading decimal run of a file name:
/// `None` when the name does not start with a digit, or when the run's
/// value does not fit in `u64`.
pub open spec fn name_order_spec(name: Seq<u8>) -> Option<u64> {
    let k = digit_prefix_len(name) as int;
    if k == 0 {
        Option::None
    } else if digits_value(name.take(k)) > u64::MAX {
        Option::None
    } else {
        Option::Some(digits_value(name.take(k)) as u64)
    }
}

/// How the scan treats one directory entry.
#[derive(Clone, Copy, Debug, PartialEq, Eq, Structural)]
pub enum Classification {
    /// Audio extension and a numeric file-name prefix: collected as is.
    Ordered(u64),
    /// Audio extension but no usable numeric prefix: the container
    /// metadata decides.
    NeedsTag,
    /// No recognised audio extension: silently ignored.
    NotAudio,
}

/// The classification of a bare file name.
pub open spec fn classify_spec(name: Seq<u8>) -> Classification {
    match extension_spec(name) {
        Option::None => Classification::NotAudio,
        Option::Some(e) => if !is_audio_ext_spec(e) {
            Classification::NotAudio
        } else {
            match name_order_spec(name) {
                Option::Some(o) => Classification::Ordered(o),
                Option::None => Classification::NeedsTag,
            }
        },
    }
}

/// `last_dot_index` is the rightmost position holding a `.`.
proof fn lemma_last_dot_index_is(s: Seq<u8>, i: int)
    requires
        -1 <= i < s.len(),
        i >= 0 ==> s[i] == 46,
        forall|q: int| i < q < s.len() ==> s[q] != 46,
    ensures
        last_dot_index(s) == i,
    decreases s.len(),
{
    if s.len() == 0 {
    } else if s.last() == 46 {
        assert(i == s.len() - 1);
    } else {
        assert(i < s.len() - 1);
        assert forall|q: int| i < q < s.drop_last().len() implies s.drop_last()[q] != 46 by {
            assert(s.drop_last()[q] == s[q]);
        }
        lemma_last_dot_index_is(s.drop_last(), i);
    }
}

/// Finds the last `.` of a name.
fn find_last_dot(name: &Vec<u8>) -> (r: Option<usize>)
    ensures
        (match r {
            Option::Some(j) => j == last_dot_index(name@) && j < name@.len(),
            Option::None => last_dot_index(name@) == -1,
        }),
{
    let mut j: usize = name.len();
    while j > 0
        invariant
            j <= name@.len(),
            forall|q: int| j <= q < name@.len() ==> name@[q] != 46,
        decreases j,
    {
        j = j - 1;
        if name[j] == 46 {
            proof {
                lemma_last_dot_index_is(name@, j as int);
            }
            return Option::Some(j);
        }
    }
    proof {
        lemma_last_dot_index_is(name@, -1);
    }
    Option::None
}

/// The extension of a bare file name, as [`extension_spec`] gives it.
pub fn extension_of(name: &Vec<u8>) -> (r: Option<Vec<u8>>)
    ensures
        (match r {
            Option::Some(e) => extension_spec(name@) == Option::Some(e@),
            Option::None => extension_spec(name@) is None,
        }),
{
    match find_last_dot(name) {
        Option::None => Option::None,
        Option::Some(j) => {
            if j == 0 {
                Option::None
            } else {
                let n = name.len();
                assert(j < n);
                let mut e: Vec<u8> = Vec::new();
                let mut i: usize = j + 1;
                while i < name.len()
                    invariant
                        j + 1 <= i <= name@.len(),
                        e@ == name@.subrange(j + 1, i as int),
                    decreases name@.len() - i,
                {
                    e.push(name[i]);
                    proof {
                        assert(e@ =~= name@.subrange(j + 1, i + 1));
                    }
                    i = i + 1;
                }
                proof {
                    assert(e@ =~= name@.skip(j + 1));
                }
                Option::Some(e)
            }
        },
    }
}

/// Membership in the fixed audio-extension set.
pub fn is_audio_ext(e: &Vec<u8>) -> (r: bool)
    ensures
        r == is_audio_ext_spec(e@),
{
    if e.len() == 3 {
        let a = e[0];
        let b = e[1];
        let c = e[2];
        let r = (a == 109 && b == 112 && c == 51)  // mp3
            || (a == 97 && b == 112 && c == 101)  // ape
            || (a == 111 && b == 103 && c == 103)  // ogg
            || (a == 109 && b == 107 && c == 97)  // mka
            || (a == 97 && b == 97 && c == 99)  // aac
            || (a == 109 && b == 52 && c == 97)  // m4a
            || (a == 99 && b == 97 && c == 102)  // caf
            || (a == 119 && b == 109 && c == 97)  // wma
            || (a == 119 && b == 97 && c == 118);  // wav
        proof {
            if r {
                assert(is_audio_ext_spec(e@)) by {
                    assert(e@ =~= seq![a, b, c]);
                }
            }
        }
        r
    } else if e.len() == 4 {
        let a = e[0];
        let b = e[1];
        let c = e[2];
        let d = e[3];
        let r = (a == 102 && b == 108 && c == 97 && d == 99)  // flac
            || (a == 111 && b == 112 && c == 117 && d == 115)  // opus
            || (a == 97 && b == 108 && c == 97 && d == 99);  // alac
        proof {
            if r {
                assert(is_audio_ext_spec(e@)) by {
                    assert(e@ =~= seq![a, b, c, d]);
                }
            }
        }
        r
    } else {
        false
    }
}

/// The track order taken from the leading decimal run of a name.
pub fn name_order(name: &Vec<u8>) -> (r: Option<u64>)
    ensures
        r == name_order_spec(name@),
{
    let mut k: usize = 0;
    while k < name.len() && 48 <= name[k] && name[k] <= 57
        invariant
            k <= name@.len(),
            forall|i: int| 0 <= i < k ==> is_ascii_digit(#[trigger] name@[i]),
        decreases name@.len() - k,
    {
        k = k + 1;
    }
    proof {
        lemma_digit_prefix_len_is(name@, k as int);
    }
    if k == 0 {
        Option::None
    } else {
        proof {
            assert(name@.subrange(0, k as int) =~= name@.take(k as int));
        }
        parse_digits_range(name, 0, k)
    }
}

/// Classifies one bare file name.
pub fn classify(name: &Vec<u8>) -> (r: Classification)
    ensures
        r == classify_spec(name@),
{
    match extension_of(name) {
        Option::None => Classification::NotAudio,
        Option::Some(e) => {
            if is_audio_ext(&e) {
                match name_order(name) {
                    Option::Some(o) => Classification::Ordered(o),
                    Option::None => Classification::NeedsTag,
                }
            } else {
                Classification::NotAudio
            }
        },
    }
}

} // verus!
