//! Character-sequence utilities: decimal rendering of counters, lexicographic
//! ordering of paths, and the path-string operations the transform needs.

use vstd::prelude::*;
use vstd::arithmetic::div_mod::lemma_fundamental_div_mod;

verus! {

// ---------------------------------------------------------------------------
// Decimal rendering of counters
// ---------------------------------------------------------------------------

/// The character for one decimal digit.
pub open spec fn digit_char(d: nat) -> char
    recommends
        d < 10,
{
    if d == 0 {
        '0'
    } else if d == 1 {
        '1'
    } else if d == 2 {
        '2'
    } else if d == 3 {
        '3'
    } else if d == 4 {
        '4'
    } else if d == 5 {
        '5'
    } else if d == 6 {
        '6'
    } else if d == 7 {
        '7'
    } else if d == 8 {
        '8'
    } else {
        '9'
    }
}

/// The decimal rendering of `n`, most significant digit first.
pub open spec fn dec_str(n: nat) -> Seq<char>
    decreases n,
{
    if n < 10 {
        seq![digit_char(n)]
    } else {
        dec_str(n / 10).push(digit_char(n % 10))
    }
}

/// The number a digit sequence denotes; inverse of `dec_str`.
pub open spec fn undec(s: Seq<char>) -> nat
    decreases s.len(),
{
    if s.len() == 0 {
        0
    } else {
        undec(s.drop_last()) * 10 + (if (s.last() as nat) >= 48 {
            ((s.last() as nat) - 48) as nat
        } else {
            0
        })
    }
}

pub proof fn lemma_dec_str_len(n: nat)
    ensures
        dec_str(n).len() >= 1,
    decreases n,
{
    if n >= 10 {
        lemma_dec_str_len(n / 10);
    }
}

/// Every character of a decimal rendering is a digit.
pub proof fn lemma_dec_str_digits(n: nat)
    ensures
        forall|i: int|
            0 <= i < dec_str(n).len() ==> 48 <= (#[trigger] dec_str(n)[i]) as nat <= 57,
    decreases n,
{
    if n < 10 {
        assert(dec_str(n)[0] == digit_char(n));
        assert(48 <= digit_char(n) as nat <= 57);
    } else {
        lemma_dec_str_digits(n / 10);
        assert(n % 10 < 10);
        assert(48 <= digit_char(n % 10) as nat <= 57);
        assert(forall|i: int|
            0 <= i < dec_str(n / 10).len() ==> dec_str(n)[i] == dec_str(n / 10)[i]);
    }
}

/// Reading back the decimal rendering recovers the number.
pub proof fn lemma_undec_dec(n: nat)
    ensures
        undec(dec_str(n)) == n,
    decreases n,
{
    assert(undec(Seq::<char>::empty()) == 0);
    if n < 10 {
        let s = dec_str(n);
        assert(s =~= seq![digit_char(n)]);
        assert(s.len() == 1);
        assert(s.drop_last() =~= Seq::<char>::empty());
        assert(undec(s.drop_last()) == 0);
        assert(s.last() == digit_char(n));
        assert(digit_char(n) as nat == 48 + n);
        assert(undec(s) == undec(s.drop_last()) * 10 + ((s.last() as nat) - 48));
    } else {
        lemma_undec_dec(n / 10);
        let s = dec_str(n);
        assert(s =~= dec_str(n / 10).push(digit_char(n % 10)));
        assert(s.drop_last() =~= dec_str(n / 10));
        assert(s.last() == digit_char(n % 10));
        assert(n % 10 < 10);
        assert(digit_char(n % 10) as nat == 48 + n % 10);
        assert(s.len() > 0);
        assert(undec(s) == undec(s.drop_last()) * 10 + ((s.last() as nat) - 48));
        assert(undec(s) == (n / 10) * 10 + n % 10);
        lemma_fundamental_div_mod(n as int, 10);
    }
}

/// Decimal renderings of distinct numbers differ.
pub proof fn lemma_dec_str_injective(a: nat, b: nat)
    requires
        dec_str(a) == dec_str(b),
    ensures
        a == b,
{
    lemma_undec_dec(a);
    lemma_undec_dec(b);
}

/// The one-character string for a decimal digit.
fn digit_str(d: usize) -> (r: &'static str)
    requires
        d < 10,
    ensures
        r@ == seq![digit_char(d as nat)],
{
    proof {
        reveal_strlit("0");
        reveal_strlit("1");
        reveal_strlit("2");
        reveal_strlit("3");
        reveal_strlit("4");
        reveal_strlit("5");
        reveal_strlit("6");
        reveal_strlit("7");
        reveal_strlit("8");
        reveal_strlit("9");
    }
    let r: &'static str = if d == 0 {
        "0"
    } else if d == 1 {
        "1"
    } else if d == 2 {
        "2"
    } else if d == 3 {
        "3"
    } else if d == 4 {
        "4"
    } else if d == 5 {
        "5"
    } else if d == 6 {
        "6"
    } else if d == 7 {
        "7"
    } else if d == 8 {
        "8"
    } else {
        "9"
    };
    proof {
        assert(r@ =~= seq![digit_char(d as nat)]);
    }
    r
}

/// Render a counter in decimal, per `dec_str`.
pub fn usize_to_string(n: usize) -> (r: String)
    ensures
        r@ == dec_str(n as nat),
    decreases n,
{
    if n < 10 {
        String::from_str(digit_str(n))
    } else {
        let mut s = usize_to_string(n / 10);
        s.append(digit_str(n % 10));
        proof {
            assert(s@ =~= dec_str((n / 10) as nat).push(digit_char((n % 10) as nat)));
        }
        s
    }
}

// ---------------------------------------------------------------------------
// Lexicographic order on character sequences
// ---------------------------------------------------------------------------

/// `a` is lexicographically at most `b`, comparing character code points.
pub open spec fn lex_le(a: Seq<char>, b: Seq<char>) -> bool
    decreases a.len(),
{
    if a.len() == 0 {
        true
    } else if b.len() == 0 {
        false
    } else if (a[0] as nat) == (b[0] as nat) {
        lex_le(a.drop_first(), b.drop_first())
    } else {
        (a[0] as nat) < (b[0] as nat)
    }
}

/// The lexicographic order is total.
pub proof fn lemma_lex_le_total(a: Seq<char>, b: Seq<char>)
    ensures
        lex_le(a, b) || lex_le(b, a),
    decreases a.len(),
{
    if a.len() > 0 && b.len() > 0 && (a[0] as nat) == (b[0] as nat) {
        lemma_lex_le_total(a.drop_first(), b.drop_first());
    }
}

/// The lexicographic order is transitive.
pub proof fn lemma_lex_le_trans(a: Seq<char>, b: Seq<char>, c: Seq<char>)
    requires
        lex_le(a, b),
        lex_le(b, c),
    ensures
        lex_le(a, c),
    decreases a.len(),
{
    if a.len() == 0 {
    } else {
        assert(b.len() > 0);
        assert(c.len() > 0);
        if (a[0] as nat) == (b[0] as nat) && (b[0] as nat) == (c[0] as nat) {
            lemma_lex_le_trans(a.drop_first(), b.drop_first(), c.drop_first());
        }
    }
}

/// Decide the lexicographic order on string slices.
pub fn str_lex_le(a: &str, b: &str) -> (r: bool)
    ensures
        r == lex_le(a@, b@),
    decreases a@.len(),
{
    let alen = a.unicode_len();
    let blen = b.unicode_len();
    if alen == 0 {
        true
    } else if blen == 0 {
        false
    } else {
        let ca = a.get_char(0);
        let cb = b.get_char(0);
        if (ca as u32) == (cb as u32) {
            let ra = a.substring_char(1, alen);
            let rb = b.substring_char(1, blen);
            proof {
                assert(ra@ =~= a@.drop_first());
                assert(rb@ =~= b@.drop_first());
            }
            str_lex_le(ra, rb)
        } else {
            (ca as u32) < (cb as u32)
        }
    }
}

// ---------------------------------------------------------------------------
// Path-string operations
// ---------------------------------------------------------------------------

/// `s` with every backslash separator replaced by a forward slash.
pub open spec fn fwd_slashes(s: Seq<char>) -> Seq<char> {
    s.map_values(|c: char| if c == '\\' { '/' } else { c })
}

/// The output specifier for a raw relative path: separators normalized to
/// forward slashes, then prefixed with `./` unless the path already starts
/// with a relative-path marker.
pub open spec fn normalize_spec(raw: Seq<char>) -> Seq<char> {
    let f = fwd_slashes(raw);
    if f.len() > 0 && f[0] == '.' {
        f
    } else {
        seq!['.', '/'] + f
    }
}

/// The directory part of a path: everything before the last `/`, empty if
/// the path has no separator.
pub open spec fn parent_spec(s: Seq<char>) -> Seq<char>
    decreases s.len(),
{
    if s.len() == 0 {
        s
    } else if s.last() == '/' {
        s.drop_last()
    } else {
        parent_spec(s.drop_last())
    }
}

/// A pattern joined under a base directory: the pattern itself if it is
/// absolute or the base is empty, else `base/pattern`.
pub open spec fn join_spec(base: Seq<char>, pat: Seq<char>) -> Seq<char> {
    if pat.len() > 0 && pat[0] == '/' {
        pat
    } else if base.len() == 0 {
        pat
    } else {
        base + seq!['/'] + pat
    }
}

/// A matched path made relative to the base directory: the part after
/// `base/` when the path lies under it, else the path unchanged.
pub open spec fn strip_spec(path: Seq<char>, base: Seq<char>) -> Seq<char> {
    if base.len() == 0 {
        path
    } else if path.len() > base.len() + 1 && path.subrange(0, base.len() as int) == base && path[
        base.len() as int
    ] == '/' {
        path.subrange(base.len() + 1 as int, path.len() as int)
    } else {
        path
    }
}

/// Replace the separators of `raw` and add the `./` prefix, as
/// `normalize_spec` describes.
pub fn normalize_specifier(raw: &str) -> (r: String)
    ensures
        r@ == normalize_spec(raw@),
{
    let len = raw.unicode_len();
    let mut out = String::new();
    let mut i: usize = 0;
    while i < len
        invariant
            len == raw@.len(),
            0 <= i <= len,
            out@ =~= fwd_slashes(raw@).subrange(0, i as int),
        decreases len - i,
    {
        let c = raw.get_char(i);
        if c == '\\' {
            out.append("/");
            proof {
                reveal_strlit("/");
            }
        } else {
            let piece = raw.substring_char(i, i + 1);
            out.append(piece);
            proof {
                assert(piece@ =~= seq![raw@[i as int]]);
            }
        }
        proof {
            assert(out@ =~= fwd_slashes(raw@).subrange(0, i + 1 as int));
        }
        i = i + 1;
    }
    proof {
        assert(out@ =~= fwd_slashes(raw@));
    }
    let outlen = out.as_str().unicode_len();
    if outlen > 0 && out.as_str().get_char(0) == '.' {
        out
    } else {
        let mut r = String::new();
        r.append("./");
        r.append(out.as_str());
        proof {
            reveal_strlit("./");
            assert(r@ =~= normalize_spec(raw@));
        }
        r
    }
}

/// The directory containing the file at `path`, per `parent_spec`.
pub fn parent_dir(path: &str) -> (r: String)
    ensures
        r@ == parent_spec(path@),
{
    let len = path.unicode_len();
    proof {
        assert(path@.subrange(0, len as int) =~= path@);
    }
    let mut i: usize = len;
    while i > 0
        invariant
            len == path@.len(),
            0 <= i <= len,
            parent_spec(path@) == parent_spec(path@.subrange(0, i as int)),
        decreases i,
    {
        let c = path.get_char(i - 1);
        if c == '/' {
            let sub = path.substring_char(0, i - 1);
            proof {
                let pre = path@.subrange(0, i as int);
                assert(pre.last() == '/');
                assert(pre.drop_last() =~= path@.subrange(0, i - 1 as int));
            }
            return String::from_str(sub);
        }
        proof {
            let pre = path@.subrange(0, i as int);
            assert(pre.last() == path@[i - 1] && pre.last() != '/');
            assert(pre.drop_last() =~= path@.subrange(0, i - 1 as int));
        }
        i = i - 1;
    }
    proof {
        assert(path@.subrange(0, 0) =~= Seq::<char>::empty());
    }
    String::new()
}

/// Join a glob pattern under a base directory, per `join_spec`.
pub fn join_pattern(base: &str, pat: &str) -> (r: String)
    ensures
        r@ == join_spec(base@, pat@),
{
    let platen = pat.unicode_len();
    if platen > 0 && pat.get_char(0) == '/' {
        String::from_str(pat)
    } else if base.unicode_len() == 0 {
        String::from_str(pat)
    } else {
        let mut r = String::from_str(base);
        r.append("/");
        r.append(pat);
        proof {
            reveal_strlit("/");
            assert(r@ =~= base@ + seq!['/'] + pat@);
        }
        r
    }
}

/// Do two string slices hold the same characters?
pub fn str_eq(a: &str, b: &str) -> (r: bool)
    ensures
        r == (a@ == b@),
{
    let alen = a.unicode_len();
    let blen = b.unicode_len();
    if alen != blen {
        return false;
    }
    let mut i: usize = 0;
    while i < alen
        invariant
            alen == a@.len(),
            blen == b@.len(),
            alen == blen,
            0 <= i <= alen,
            forall|k: int| 0 <= k < i ==> a@[k] == b@[k],
        decreases alen - i,
    {
        if a.get_char(i) != b.get_char(i) {
            return false;
        }
        i = i + 1;
    }
    proof {
        assert(a@ =~= b@);
    }
    true
}

/// Does `s` start with the characters of `p`?
pub fn has_prefix(s: &str, p: &str) -> (r: bool)
    ensures
        r == (s@.len() >= p@.len() && s@.subrange(0, p@.len() as int) == p@),
{
    let slen = s.unicode_len();
    let plen = p.unicode_len();
    if slen < plen {
        proof {
            assert(s@.len() < p@.len());
        }
        return false;
    }
    let mut i: usize = 0;
    while i < plen
        invariant
            slen == s@.len(),
            plen == p@.len(),
            plen <= slen,
            0 <= i <= plen,
            forall|k: int| 0 <= k < i ==> s@[k] == p@[k],
        decreases plen - i,
    {
        if s.get_char(i) != p.get_char(i) {
            proof {
                assert(s@.subrange(0, p@.len() as int)[i as int] != p@[i as int]);
            }
            return false;
        }
        i = i + 1;
    }
    proof {
        assert(s@.subrange(0, p@.len() as int) =~= p@);
    }
    true
}

/// A file path mapped under the host's working-directory mount: when the
/// path starts with the working directory, that prefix is replaced by
/// `/cwd`; otherwise the path is unchanged.
pub open spec fn rebase_spec(path: Seq<char>, cwd: Seq<char>) -> Seq<char> {
    if cwd.len() > 0 && path.len() >= cwd.len() && path.subrange(0, cwd.len() as int) == cwd {
        seq!['/', 'c', 'w', 'd'] + path.subrange(cwd.len() as int, path.len() as int)
    } else {
        path
    }
}

/// Rebase a file path under the host's working-directory mount, per
/// `rebase_spec`.
pub fn rebase_filepath(path: &str, cwd: &str) -> (r: String)
    ensures
        r@ == rebase_spec(path@, cwd@),
{
    let plen = path.unicode_len();
    let clen = cwd.unicode_len();
    if clen > 0 && plen >= clen && has_prefix(path, cwd) {
        let rest = path.substring_char(clen, plen);
        let mut r = String::new();
        r.append("/cwd");
        r.append(rest);
        proof {
            reveal_strlit("/cwd");
            assert(r@ =~= rebase_spec(path@, cwd@));
        }
        r
    } else {
        String::from_str(path)
    }
}

/// Make a matched path relative to the base directory, per `strip_spec`.
pub fn strip_base(path: &str, base: &str) -> (r: String)
    ensures
        r@ == strip_spec(path@, base@),
{
    let platen = path.unicode_len();
    let blen = base.unicode_len();
    if blen == 0 {
        return String::from_str(path);
    }
    if blen < platen && platen - blen > 1 && has_prefix(path, base) && path.get_char(blen) == '/' {
        let sub = path.substring_char(blen + 1, platen);
        String::from_str(sub)
    } else {
        String::from_str(path)
    }
}

} // verus!
