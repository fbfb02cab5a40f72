//! Reading a track order out of container metadata.
//!
//! The metadata of a container is a list of key/value string pairs in
//! whatever order the demuxer hands them out. The order of a track is the
//! value of a key whose ASCII-case-folded form is `track`; the value may be
//! `N` or `N/TOTAL`, and only the part before the first `/` counts.

use vstd::prelude::*;

use crate::digits::{all_digits, digits_value, is_ascii_digit, parse_digits_range};

verus! {

/// ASCII case folding of one byte.
pub open spec fn lower_byte(b: u8) -> u8 {
    if 65 <= b && b <= 90 {
        (b + 32) as u8
    } else {
        b
    }
}

/// The key names the `track` tag, compared ASCII-case-insensitively.
pub open spec fn is_track_key(k: Seq<u8>) -> bool {
    k.map_values(|b: u8| lower_byte(b)) == seq![
        't' as u8,
        'r' as u8,
        'a' as u8,
        'c' as u8,
        'k' as u8,
    ]
}

/// The part of `v` before its first `/`; all of `v` when it has none.
pub open spec fn before_slash(v: Seq<u8>) -> Seq<u8>
    decreases v.len(),
{
    if v.len() == 0 {
        v
    } else if v[0] == 47 {
        Seq::empty()
    } else {
        seq![v[0]] + before_slash(v.skip(1))
    }
}

/// A decimal `u64` as the standard library parses one: an optional leading
/// `+`, then at least one ASCII digit, and a value that fits in `u64`.
pub open spec fn parse_u64_spec(s: Seq<u8>) -> Option<u64> {
    let t = if s.len() > 0 && s[0] == 43 {
        s.skip(1)
    } else {
        s
    };
    if t.len() == 0 || !all_digits(t) || digits_value(t) > u64::MAX {
        Option::None
    } else {
        Option::Some(digits_value(t) as u64)
    }
}

/// The order a metadata value yields: the part before the first `/`,
/// parsed as a decimal number.
pub open spec fn track_value_spec(v: Seq<u8>) -> Option<u64> {
    parse_u64_spec(before_slash(v))
}

/// The views of a list of metadata pairs.
pub open spec fn pairs_view(tags: Seq<(Vec<u8>, Vec<u8>)>) -> Seq<(Seq<u8>, Seq<u8>)> {
    tags.map_values(|p: (Vec<u8>, Vec<u8>)| (p.0@, p.1@))
}

/// The track order of a metadata list: the first pair whose key names the
/// `track` tag and whose value parses wins; `None` when no pair does.
pub open spec fn track_of(tags: Seq<(Seq<u8>, Seq<u8>)>) -> Option<u64>
    decreases tags.len(),
{
    if tags.len() == 0 {
        Option::None
    } else if is_track_key(tags[0].0) && track_value_spec(tags[0].1) is Some {
        track_value_spec(tags[0].1)
    } else {
        track_of(tags.skip(1))
    }
}

/// Whether the key names the `track` tag.
fn key_is_track(k: &Vec<u8>) -> (r: bool)
    ensures
        r == is_track_key(k@),
{
    let ghost folded = k@.map_values(|b: u8| lower_byte(b));
    let ghost word = seq!['t' as u8, 'r' as u8, 'a' as u8, 'c' as u8, 'k' as u8];
    if k.len() != 5 {
        assert(folded.len() == k@.len());
        return false;
    }
    let mut lows: [u8; 5] = [0; 5];
    let mut i: usize = 0;
    while i < 5
        invariant
            i <= 5,
            k@.len() == 5,
            forall|q: int| 0 <= q < i ==> lows@[q] == lower_byte(#[trigger] k@[q]),
        decreases 5 - i,
    {
        let b = k[i];
        let low = if 65 <= b && b <= 90 {
            b + 32
        } else {
            b
        };
        lows[i] = low;
        i = i + 1;
    }
    let r = lows[0] == 116 && lows[1] == 114 && lows[2] == 97 && lows[3] == 99 && lows[4] == 107;
    proof {
        assert(folded.len() == 5);
        assert forall|q: int| 0 <= q < 5 implies folded[q] == lower_byte(k@[q]) by {}
        if r {
            assert(folded =~= word);
        } else {
            assert(folded != word);
        }
    }
    r
}

/// `before_slash` is the run up to the first `/`.
proof fn lemma_before_slash_is(v: Seq<u8>, j: int)
    requires
        0 <= j <= v.len(),
        forall|q: int| 0 <= q < j ==> v[q] != 47,
        j < v.len() ==> v[j] == 47,
    ensures
        before_slash(v) == v.take(j),
    decreases v.len(),
{
    if v.len() == 0 {
        assert(v.take(0) =~= v);
    } else if v[0] == 47 {
        assert(j == 0);
        assert(v.take(0) =~= Seq::<u8>::empty());
    } else {
        assert(j >= 1);
        assert forall|q: int| 0 <= q < j - 1 implies v.skip(1)[q] != 47 by {
            assert(v.skip(1)[q] == v[q + 1]);
        }
        assert(j - 1 < v.skip(1).len() ==> v.skip(1)[j - 1] == 47);
        lemma_before_slash_is(v.skip(1), j - 1);
        assert(seq![v[0]] + v.skip(1).take(j - 1) =~= v.take(j));
    }
}

/// Parses a metadata value as [`track_value_spec`] reads it.
#[verifier::loop_isolation(false)]
fn track_value(v: &Vec<u8>) -> (r: Option<u64>)
    ensures
        r == track_value_spec(v@),
{
    // The run before the first `/`.
    let mut j: usize = 0;
    while j < v.len() && v[j] != 47
        invariant
            j <= v@.len(),
            forall|q: int| 0 <= q < j ==> v@[q] != 47,
        decreases v@.len() - j,
    {
        j = j + 1;
    }
    proof {
        lemma_before_slash_is(v@, j as int);
    }
    let ghost num = before_slash(v@);
    // An optional leading `+`.
    let from: usize = if j > 0 && v[0] == 43 {
        1
    } else {
        0
    };
    let ghost t = if num.len() > 0 && num[0] == 43 {
        num.skip(1)
    } else {
        num
    };
    proof {
        assert(t =~= v@.subrange(from as int, j as int));
    }
    if from == j {
        // Nothing after the sign: no digits at all.
        assert(t.len() == 0);
        return Option::None;
    }
    // Every remaining byte must be a digit.
    let mut i: usize = from;
    while i < j
        invariant
            from <= i <= j <= v@.len(),
            forall|q: int| from <= q < i ==> is_ascii_digit(#[trigger] v@[q]),
        decreases j - i,
    {
        let b = v[i];
        if b < 48 || b > 57 {
            assert(!is_ascii_digit(t[i - from]));
            return Option::None;
        }
        i = i + 1;
    }
    assert(all_digits(t)) by {
        assert(forall|q: int| 0 <= q < t.len() ==> t[q] == v@[from + q]);
    }
    parse_digits_range(v, from, j)
}

/// Walks the metadata pairs and returns the first track order found, as
/// [`track_of`] describes.
#[verifier::loop_isolation(false)]
pub fn get_track(tags: &Vec<(Vec<u8>, Vec<u8>)>) -> (r: Option<u64>)
    ensures
        r == track_of(pairs_view(tags@)),
{
    let ghost all = pairs_view(tags@);
    assert(all.skip(0) =~= all);
    let mut i: usize = 0;
    while i < tags.len()
        invariant
            i <= tags@.len(),
            all == pairs_view(tags@),
            track_of(all.skip(i as int)) == track_of(all),
        decreases tags@.len() - i,
    {
        let pair = &tags[i];
        let matched = key_is_track(&pair.0);
        let value = if matched {
            track_value(&pair.1)
        } else {
            Option::None
        };
        proof {
            assert(all[i as int] == (tags@[i as int].0@, tags@[i as int].1@));
            assert(all.skip(i as int)[0] == all[i as int]);
            assert(all.skip(i as int).skip(1) =~= all.skip(i + 1));
        }
        if matched {
            if let Option::Some(o) = value {
                return Option::Some(o);
            }
        }
        i = i + 1;
    }
    assert(all.skip(tags@.len() as int) =~= Seq::<(Seq<u8>, Seq<u8>)>::empty());
    Option::None
}

} // verus!
