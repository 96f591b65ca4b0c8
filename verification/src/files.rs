//! Snapshot file naming: one file per year, named by the year's decimal
//! digits with a ".toml" suffix. The name parser and renderer are exact
//! inverses, and selecting the most recent snapshot picks the largest
//! year among the well-formed names in a directory listing.

use vstd::prelude::*;
use vstd::string::StrSliceExecFns;
use vstd::string::StringExecFns;

use crate::text::{
    all_digits, digit_char, digit_val, digits_val, int_to_string, is_digit_char, spec_digits,
    spec_int_chars,
};

verus! {

/// The ".toml" suffix of snapshot file names, as characters.
pub open spec fn toml_suffix() -> Seq<char> {
    seq!['.', 't', 'o', 'm', 'l']
}

/// The digit run of a snapshot file name (the part before ".toml").
pub open spec fn year_file_stem(name: Seq<char>) -> Seq<char> {
    name.subrange(0, name.len() - 5)
}

/// `name` has the shape of a snapshot file name: one to nine decimal
/// digits followed by ".toml". Nine digits keep the year inside `i32`.
pub open spec fn is_year_file_name(name: Seq<char>) -> bool {
    &&& 6 <= name.len() <= 14
    &&& name.subrange(name.len() - 5, name.len() as int) == toml_suffix()
    &&& all_digits(year_file_stem(name))
}

/// Ten to the `k`.
pub open spec fn pow10(k: nat) -> int
    decreases k,
{
    if k == 0 {
        1
    } else {
        10 * pow10((k - 1) as nat)
    }
}

/// A digit string's value is bounded by ten to its length.
pub proof fn lemma_digits_val_bound(s: Seq<char>)
    requires
        all_digits(s),
    ensures
        0 <= digits_val(s) < pow10(s.len()),
    decreases s.len(),
{
    if s.len() > 0 {
        assert(all_digits(s.drop_last())) by {
            assert forall|k: int| 0 <= k < s.drop_last().len() implies is_digit_char(
                #[trigger] s.drop_last()[k],
            ) by {
                assert(s.drop_last()[k] == s[k]);
            }
        }
        lemma_digits_val_bound(s.drop_last());
        assert(is_digit_char(s.last()));
    }
}

/// The decimal rendering of `n` is all digits, denotes `n`, and has at
/// most `k` digits whenever `n < pow10(k)`.
pub proof fn lemma_spec_digits_props(n: int)
    requires
        0 <= n,
    ensures
        all_digits(spec_digits(n)),
        digits_val(spec_digits(n)) == n,
        spec_digits(n).len() >= 1,
    decreases n,
{
    if n < 10 {
        assert(spec_digits(n) == seq![digit_char(n)]);
        assert(is_digit_char(digit_char(n)));
        assert(digit_val(digit_char(n)) == n);
        assert(digits_val(spec_digits(n)) == digits_val(
            spec_digits(n).drop_last(),
        ) * 10 + digit_val(spec_digits(n).last()));
        assert(spec_digits(n).drop_last() =~= Seq::<char>::empty());
    } else {
        lemma_spec_digits_props(n / 10);
        let s = spec_digits(n);
        assert(s == spec_digits(n / 10).push(digit_char(n % 10)));
        assert(s.drop_last() =~= spec_digits(n / 10));
        assert(s.last() == digit_char(n % 10));
        assert(is_digit_char(digit_char(n % 10)));
        assert(digit_val(digit_char(n % 10)) == n % 10);
        assert forall|k: int| 0 <= k < s.len() implies is_digit_char(#[trigger] s[k]) by {
            if k < s.len() - 1 {
                assert(s[k] == spec_digits(n / 10)[k]);
            }
        }
    }
}

/// `n < pow10(k)` has at most `k` digits.
pub proof fn lemma_spec_digits_len(n: int, k: nat)
    requires
        0 <= n < pow10(k),
        k >= 1,
    ensures
        spec_digits(n).len() <= k,
    decreases n,
{
    if n < 10 {
    } else {
        assert(pow10(k) == 10 * pow10((k - 1) as nat));
        assert(n / 10 < pow10((k - 1) as nat)) by {
            assert(10 * (n / 10) <= n);
        }
        assert(k - 1 >= 1) by {
            if k == 1 {
                assert(pow10(0nat) == 1);
                assert(n < 10);
            }
        }
        lemma_spec_digits_len(n / 10, (k - 1) as nat);
    }
}

/// The name of the snapshot file for `year`.
pub fn snapshot_file_name(year: i32) -> (name: String)
    ensures
        name@ == spec_int_chars(year as int) + toml_suffix(),
{
    let mut s = int_to_string(year as i64);
    proof {
        reveal_strlit(".toml");
        assert(".toml"@ =~= toml_suffix());
    }
    s.append(".toml");
    s
}

/// The name of the page cache file for `page`.
pub fn cache_file_name(page: i32) -> (name: String)
    ensures
        name@ == spec_int_chars(page as int) + ".json"@,
{
    let mut s = int_to_string(page as i64);
    s.append(".json");
    s
}

fn char_digit(c: char) -> (r: Option<u8>)
    ensures
        match r {
            Some(d) => is_digit_char(c) && d as int == digit_val(c) && d < 10,
            None => !is_digit_char(c),
        },
{
    if c == '0' {
        Some(0)
    } else if c == '1' {
        Some(1)
    } else if c == '2' {
        Some(2)
    } else if c == '3' {
        Some(3)
    } else if c == '4' {
        Some(4)
    } else if c == '5' {
        Some(5)
    } else if c == '6' {
        Some(6)
    } else if c == '7' {
        Some(7)
    } else if c == '8' {
        Some(8)
    } else if c == '9' {
        Some(9)
    } else {
        None
    }
}

/// Reads the year out of a snapshot file name, or `None` for any name
/// that is not digits followed by ".toml".
#[verifier::loop_isolation(false)]
pub fn parse_year_file_name(name: &str) -> (r: Option<i32>)
    ensures
        match r {
            Some(y) => is_year_file_name(name@) && y as int == digits_val(year_file_stem(name@))
                && y >= 0,
            None => !is_year_file_name(name@),
        },
{
    let n = name.unicode_len();
    if n < 6 || n > 14 {
        return None;
    }
    let dot = name.get_char(n - 5);
    let t = name.get_char(n - 4);
    let o = name.get_char(n - 3);
    let m = name.get_char(n - 2);
    let l = name.get_char(n - 1);
    if !(dot == '.' && t == 't' && o == 'o' && m == 'm' && l == 'l') {
        proof {
            let nn = name@.len() as int;
            if is_year_file_name(name@) {
                assert(name@.subrange(nn - 5, nn)[0] == name@[nn - 5]);
                assert(name@.subrange(nn - 5, nn)[1] == name@[nn - 4]);
                assert(name@.subrange(nn - 5, nn)[2] == name@[nn - 3]);
                assert(name@.subrange(nn - 5, nn)[3] == name@[nn - 2]);
                assert(name@.subrange(nn - 5, nn)[4] == name@[nn - 1]);
            }
        }
        return None;
    }
    proof {
        assert(name@.subrange(name@.len() - 5, name@.len() as int) =~= toml_suffix());
    }
    let stem_len = n - 5;
    let ghost stem = year_file_stem(name@);
    let mut acc: u64 = 0;
    let mut k: usize = 0;
    while k < stem_len
        invariant
            k <= stem_len,
            acc as int == digits_val(stem.take(k as int)),
            all_digits(stem.take(k as int)),
            acc < 1000000000,
        decreases stem_len - k,
    {
        let c = name.get_char(k);
        proof {
            assert(stem[k as int] == name@[k as int]);
        }
        match char_digit(c) {
            Some(d) => {
                proof {
                    assert(stem.take(k as int + 1).drop_last() =~= stem.take(k as int));
                    assert(stem.take(k as int + 1).last() == stem[k as int]);
                    assert(all_digits(stem.take(k as int + 1)));
                    assert(stem.take(k as int + 1).len() <= 9);
                    lemma_digits_val_bound(stem.take(k as int + 1));
                    assert(pow10(9nat) == 1000000000) by {
                        reveal_with_fuel(pow10, 11);
                    }
                    assert(pow10(stem.take(k as int + 1).len()) <= pow10(9nat)) by {
                        lemma_pow10_mono(stem.take(k as int + 1).len(), 9nat);
                    }
                }
                acc = acc * 10 + (d as u64);
            },
            None => {
                proof {
                    assert(!is_digit_char(stem[k as int]));
                }
                return None;
            },
        }
        k = k + 1;
    }
    proof {
        assert(stem.take(stem_len as int) =~= stem);
    }
    Some(acc as i32)
}

/// `pow10` is monotone.
proof fn lemma_pow10_mono(a: nat, b: nat)
    requires
        a <= b,
    ensures
        pow10(a) <= pow10(b),
    decreases b,
{
    if a < b {
        lemma_pow10_mono(a, (b - 1) as nat);
        assert(pow10(b) == 10 * pow10((b - 1) as nat));
        assert(pow10((b - 1) as nat) >= 1) by {
            lemma_pow10_pos((b - 1) as nat);
        }
    }
}

proof fn lemma_pow10_pos(k: nat)
    ensures
        pow10(k) >= 1,
    decreases k,
{
    if k > 0 {
        lemma_pow10_pos((k - 1) as nat);
    }
}

/// Rendering a year and parsing it back returns the same year: the
/// snapshot file name round-trips.
pub proof fn lemma_year_file_name_round_trip(y: int)
    requires
        0 <= y <= 999999999,
    ensures
        is_year_file_name(spec_int_chars(y) + toml_suffix()),
        digits_val(year_file_stem(spec_int_chars(y) + toml_suffix())) == y,
{
    lemma_spec_digits_props(y);
    assert(pow10(9nat) == 1000000000) by {
        reveal_with_fuel(pow10, 11);
    }
    lemma_spec_digits_len(y, 9nat);
    let name = spec_int_chars(y) + toml_suffix();
    assert(spec_int_chars(y) == spec_digits(y));
    assert(name.subrange(name.len() - 5, name.len() as int) =~= toml_suffix());
    assert(year_file_stem(name) =~= spec_digits(y));
}

/// Picks the snapshot to seed from: the well-formed snapshot file name
/// with the largest year, with its index in `names`. `None` when no name
/// parses.
#[verifier::loop_isolation(false)]
pub fn select_latest_snapshot(names: &Vec<String>) -> (r: Option<(usize, i32)>)
    ensures
        match r {
            Some(p) => {
                &&& p.0 < names@.len()
                &&& is_year_file_name(names@[p.0 as int]@)
                &&& p.1 as int == digits_val(year_file_stem(names@[p.0 as int]@))
                &&& forall|k: int|
                    0 <= k < names@.len() && is_year_file_name((#[trigger] names@[k])@)
                        ==> digits_val(year_file_stem(names@[k]@)) <= p.1 as int
            },
            None => forall|k: int|
                0 <= k < names@.len() ==> !is_year_file_name((#[trigger] names@[k])@),
        },
{
    let mut best: Option<(usize, i32)> = None;
    let n = names.len();
    let mut i: usize = 0;
    while i < n
        invariant
            i <= n,
            n == names@.len(),
            match best {
                Some(p) => {
                    &&& p.0 < i
                    &&& is_year_file_name(names@[p.0 as int]@)
                    &&& p.1 as int == digits_val(year_file_stem(names@[p.0 as int]@))
                    &&& forall|k: int|
                        0 <= k < i && is_year_file_name((#[trigger] names@[k])@)
                            ==> digits_val(year_file_stem(names@[k]@)) <= p.1 as int
                },
                None => forall|k: int|
                    0 <= k < i ==> !is_year_file_name((#[trigger] names@[k])@),
            },
        decreases n - i,
    {
        match parse_year_file_name(names[i].as_str()) {
            Some(y) => {
                match best {
                    Some(p) => {
                        if y > p.1 {
                            best = Some((i, y));
                        }
                    },
                    None => {
                        best = Some((i, y));
                    },
                }
            },
            None => {},
        }
        i = i + 1;
    }
    best
}

} // verus!
