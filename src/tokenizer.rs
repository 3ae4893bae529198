//! Splits the body of an inline table, `a = "1", b = "2" }`, into key and value pairs.
use vstd::prelude::*;
use crate::text::{CharClass, strip_bounds, trim, unquote, chars_of, string_of};

verus! {

/// Where the scan of an inline table stands after some prefix of it.
pub struct ScanState {
    /// 0: reading a key; 1: at the first character of a value; 2: inside a value;
    /// 3: waiting for the comma before the next key.
    pub stage: nat,
    /// Where the text of the current key or value begins.
    pub start: int,
    pub key: Seq<char>,
    /// The character that opened the current value, and that closes it.
    pub delim: char,
    pub pairs: Seq<(Seq<char>, Seq<char>)>,
}

pub open spec fn scan_start() -> ScanState {
    ScanState { stage: 0, start: 0, key: Seq::empty(), delim: '?', pairs: Seq::empty() }
}

/// The scan after reading character `i` of `s` in state `st`.
pub open spec fn scan_step(st: ScanState, s: Seq<char>, i: int) -> ScanState {
    let c = s[i];
    if st.stage == 0 && c == '=' {
        ScanState {
            stage: 1,
            start: i + 1,
            key: unquote(trim(s.subrange(st.start, i))),
            ..st
        }
    } else if st.stage == 1 {
        ScanState { stage: 2, delim: c, ..st }
    } else if st.stage == 2 && c == st.delim {
        ScanState {
            stage: 3,
            start: i + 1,
            pairs: st.pairs.push((st.key, unquote(trim(s.subrange(st.start, i + 1))))),
            ..st
        }
    } else if st.stage == 3 && c == ',' {
        ScanState { stage: 0, start: i + 1, ..st }
    } else {
        st
    }
}

/// The scan after the first `n` characters of `s`.
pub open spec fn scan_prefix(s: Seq<char>, n: nat) -> ScanState
    decreases n,
{
    if n == 0 {
        scan_start()
    } else {
        scan_step(scan_prefix(s, (n - 1) as nat), s, n - 1)
    }
}

/// The key and value pairs of the inline table body `s`, in order.
pub open spec fn tokens(s: Seq<char>) -> Seq<(Seq<char>, Seq<char>)> {
    scan_prefix(s, s.len()).pairs
}

/// The characters of each string of each pair.
pub open spec fn pairs_view(a: Seq<(String, String)>) -> Seq<(Seq<char>, Seq<char>)> {
    a.map_values(|p: (String, String)| (p.0@, p.1@))
}

/// The pairs of the inline table body `v[lo..hi]`.
pub fn tokenize_range(v: &Vec<char>, lo: usize, hi: usize) -> (r: Vec<(String, String)>)
    requires
        lo <= hi <= v.len(),
    ensures
        pairs_view(r@) == tokens(v@.subrange(lo as int, hi as int)),
{
    let ghost s = v@.subrange(lo as int, hi as int);
    let mut out: Vec<(String, String)> = Vec::new();
    let mut stage: u8 = 0;
    let mut start: usize = lo;
    let mut key_lo: usize = lo;
    let mut key_hi: usize = lo;
    let mut delim: char = '?';
    let mut i: usize = lo;
    while i < hi
        invariant
            lo <= i <= hi <= v.len(),
            s == v@.subrange(lo as int, hi as int),
            lo <= start <= i,
            lo <= key_lo <= key_hi <= hi,
            scan_prefix(s, (i - lo) as nat).stage == stage as nat,
            scan_prefix(s, (i - lo) as nat).start == start - lo,
            scan_prefix(s, (i - lo) as nat).key == v@.subrange(key_lo as int, key_hi as int),
            scan_prefix(s, (i - lo) as nat).delim == delim,
            scan_prefix(s, (i - lo) as nat).pairs == pairs_view(out@),
        decreases hi - i,
    {
        let c = v[i];
        proof {
            assert(s[i - lo] == c);
        }
        if stage == 0 && c == '=' {
            let (a, b) = strip_bounds(v, start, i, CharClass::Space);
            let (ka, kb) = strip_bounds(v, a, b, CharClass::Quote);
            proof {
                assert(s.subrange(start - lo, i - lo) =~= v@.subrange(start as int, i as int));
            }
            key_lo = ka;
            key_hi = kb;
            start = i + 1;
            stage = 1;
        } else if stage == 1 {
            delim = c;
            stage = 2;
        } else if stage == 2 && c == delim {
            let (a, b) = strip_bounds(v, start, i + 1, CharClass::Space);
            let (va, vb) = strip_bounds(v, a, b, CharClass::Quote);
            proof {
                assert(s.subrange(start - lo, i + 1 - lo) =~= v@.subrange(
                    start as int,
                    i + 1,
                ));
            }
            let pair = (string_of(v, key_lo, key_hi), string_of(v, va, vb));
            let ghost before = out@;
            out.push(pair);
            proof {
                assert(pairs_view(out@) =~= pairs_view(before).push((pair.0@, pair.1@)));
            }
            start = i + 1;
            stage = 3;
        } else if stage == 3 && c == ',' {
            start = i + 1;
            stage = 0;
        }
        i += 1;
    }
    out
}

/// The key and value pairs of an inline table body (the text after its `{`), in the
/// order in which they stand.
pub fn get_args_from_flat_dict(dict_body: &str) -> (r: Vec<(String, String)>)
    ensures
        pairs_view(r@) == tokens(dict_body@),
{
    let v = chars_of(dict_body);
    proof {
        assert(v@.subrange(0, v@.len() as int) =~= dict_body@);
    }
    tokenize_range(&v, 0, v.len())
}

} // verus!
