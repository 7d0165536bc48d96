//! Text primitives: whitespace, trimming, line splitting with 1-based
//! numbering, whitespace-separated tokens, and string joining.
//!
//! Every executable function here is verified against a recursive
//! specification over `Seq<char>` views.

use vstd::prelude::*;
use vstd::string::StrSliceExecFns;
use vstd::string::StringExecFns;

verus! {

/// The whitespace characters recognized by this store's text files.
pub open spec fn is_space(c: char) -> bool {
    c == ' ' || c == '\t' || c == '\n' || c == '\r' || c == '\x0c'
}

/// Executable test for `is_space`.
pub fn space_char(c: char) -> (r: bool)
    ensures
        r == is_space(c),
{
    c == ' ' || c == '\t' || c == '\n' || c == '\r' || c == '\x0c'
}

/// `s` with its leading whitespace removed.
pub open spec fn trim_front(s: Seq<char>) -> Seq<char>
    decreases s.len(),
{
    if s.len() > 0 && is_space(s[0]) {
        trim_front(s.drop_first())
    } else {
        s
    }
}

/// `s` with its trailing whitespace removed.
pub open spec fn trim_back(s: Seq<char>) -> Seq<char>
    decreases s.len(),
{
    if s.len() > 0 && is_space(s.last()) {
        trim_back(s.drop_last())
    } else {
        s
    }
}

/// `s` with both leading and trailing whitespace removed.
pub open spec fn trimmed(s: Seq<char>) -> Seq<char> {
    trim_back(trim_front(s))
}

/// Locates the trimmed portion of `s@` between `lo` and `hi`: returns
/// `(a, b)` with `s@[a..b]` equal to the trim of `s@[lo..hi]`.
pub fn trim_in(s: &str, lo: usize, hi: usize) -> (r: (usize, usize))
    requires
        lo <= hi <= s@.len(),
    ensures
        lo <= r.0 <= r.1 <= hi,
        trimmed(s@.subrange(lo as int, hi as int)) == s@.subrange(r.0 as int, r.1 as int),
{
    let mut a = lo;
    while a < hi && space_char(s.get_char(a))
        invariant
            lo <= a <= hi <= s@.len(),
            trim_front(s@.subrange(lo as int, hi as int)) == trim_front(
                s@.subrange(a as int, hi as int),
            ),
        decreases hi - a,
    {
        proof {
            assert(s@.subrange(a as int, hi as int).drop_first() =~= s@.subrange(
                a + 1,
                hi as int,
            ));
        }
        a = a + 1;
    }
    proof {
        assert(trim_front(s@.subrange(a as int, hi as int)) == s@.subrange(a as int, hi as int));
    }
    let mut b = hi;
    while b > a && space_char(s.get_char(b - 1))
        invariant
            lo <= a <= b <= hi <= s@.len(),
            trim_front(s@.subrange(lo as int, hi as int)) == s@.subrange(a as int, hi as int),
            trim_back(s@.subrange(a as int, hi as int)) == trim_back(
                s@.subrange(a as int, b as int),
            ),
        decreases b,
    {
        proof {
            assert(s@.subrange(a as int, b as int).drop_last() =~= s@.subrange(a as int, b - 1));
        }
        b = b - 1;
    }
    proof {
        assert(trim_back(s@.subrange(a as int, b as int)) == s@.subrange(a as int, b as int));
    }
    (a, b)
}

/// The numbered, trimmed, non-empty lines of `s`, with `cur` the part of
/// the current line read so far and `n` the current 1-based line number.
/// Lines are separated by `'\n'`; a line whose trim is empty yields
/// nothing, but still advances the numbering.
pub open spec fn words_acc(s: Seq<char>, cur: Seq<char>, n: int) -> Seq<(int, Seq<char>)>
    decreases s.len(),
{
    if s.len() == 0 {
        if trimmed(cur).len() > 0 {
            seq![(n, trimmed(cur))]
        } else {
            Seq::empty()
        }
    } else if s[0] == '\n' {
        if trimmed(cur).len() > 0 {
            seq![(n, trimmed(cur))] + words_acc(s.drop_first(), Seq::empty(), n + 1)
        } else {
            words_acc(s.drop_first(), Seq::empty(), n + 1)
        }
    } else {
        words_acc(s.drop_first(), cur.push(s[0]), n)
    }
}

/// The numbered, trimmed, non-empty lines of a whole text, numbered from 1.
pub open spec fn line_words(s: Seq<char>) -> Seq<(int, Seq<char>)> {
    words_acc(s, Seq::empty(), 1)
}

/// `r` holds exactly the numbered words `m`, as runtime values.
pub open spec fn matches_numbered(r: Seq<(usize, String)>, m: Seq<(int, Seq<char>)>) -> bool {
    &&& r.len() == m.len()
    &&& forall|k: int| 0 <= k < m.len() ==> r[k].0 as int == m[k].0 && r[k].1@ == m[k].1
}

/// Splits `s` on newlines and returns each line whose trim is non-empty,
/// paired with its 1-based position in the original line sequence.
pub fn split_clean(s: &str) -> (r: Vec<(usize, String)>)
    requires
        s@.len() < usize::MAX,
    ensures
        matches_numbered(r@, line_words(s@)),
{
    let ghost m = line_words(s@);
    let n = s.unicode_len();
    let mut out: Vec<(usize, String)> = Vec::new();
    let mut pos: usize = 0;
    let mut line_no: usize = 1;
    proof {
        assert(s@.skip(0) =~= s@);
        assert(m.skip(0) =~= m);
    }
    loop
        invariant_except_break
            m.skip(out@.len() as int) == words_acc(s@.skip(pos as int), Seq::empty(), line_no as int),
        invariant
            pos <= n == s@.len() < usize::MAX,
            1 <= line_no <= pos + 1,
            out@.len() <= m.len(),
            forall|k: int| 0 <= k < out@.len() ==> out@[k].0 as int == m[k].0 && out@[k].1@
                == m[k].1,
        ensures
            out@.len() == m.len(),
            forall|k: int| 0 <= k < out@.len() ==> out@[k].0 as int == m[k].0 && out@[k].1@
                == m[k].1,
        decreases n - pos,
    {
        // scan to the next newline (or the end of the text)
        let mut nl = pos;
        while nl < n && s.get_char(nl) != '\n'
            invariant
                pos <= nl <= n == s@.len(),
                forall|k: int| pos <= k < nl ==> s@[k] != '\n',
            decreases n - nl,
        {
            nl = nl + 1;
        }
        let ghost w = trimmed(s@.subrange(pos as int, nl as int));
        let ghost rest = if nl < n {
            words_acc(s@.skip(nl as int + 1), Seq::empty(), line_no as int + 1)
        } else {
            Seq::<(int, Seq<char>)>::empty()
        };
        proof {
            lemma_words_acc_line(s@, pos as int, nl as int, line_no as int);
        }
        let (a, b) = trim_in(s, pos, nl);
        if a < b {
            let word = s.substring_char(a, b).to_owned();
            proof {
                let c = out@.len() as int;
                assert(m.skip(c) == seq![(line_no as int, w)] + rest);
                assert(m.skip(c)[0] == (line_no as int, w));
                assert(m.skip(c)[0] == m[c]);
                assert(m.skip(c).drop_first() =~= m.skip(c + 1));
                assert(m.skip(c).drop_first() =~= rest);
                assert(m.skip(c).len() == m.len() - c);
            }
            out.push((line_no, word));
        }
        proof {
            assert(m.skip(out@.len() as int) == rest);
        }
        if nl == n {
            proof {
                let c = out@.len() as int;
                assert(m.skip(c).len() == m.len() - c);
                assert(out@.len() == m.len());
            }
            break ;
        }
        pos = nl + 1;
        line_no = line_no + 1;
    }
    out
}

/// The whitespace-separated tokens of `s`, with `cur` the part of the
/// current token read so far.
pub open spec fn tokens_acc(s: Seq<char>, cur: Seq<char>) -> Seq<Seq<char>>
    decreases s.len(),
{
    if s.len() == 0 {
        if cur.len() > 0 {
            seq![cur]
        } else {
            Seq::empty()
        }
    } else if is_space(s[0]) {
        if cur.len() > 0 {
            seq![cur] + tokens_acc(s.drop_first(), Seq::empty())
        } else {
            tokens_acc(s.drop_first(), Seq::empty())
        }
    } else {
        tokens_acc(s.drop_first(), cur.push(s[0]))
    }
}

/// The whitespace-separated tokens of a whole text.
pub open spec fn tokens(s: Seq<char>) -> Seq<Seq<char>> {
    tokens_acc(s, Seq::empty())
}

/// `r` holds exactly the character sequences `m`, as runtime strings.
pub open spec fn matches_words(r: Seq<String>, m: Seq<Seq<char>>) -> bool {
    &&& r.len() == m.len()
    &&& forall|k: int| 0 <= k < m.len() ==> r[k]@ == m[k]
}

/// Splits `s` into its maximal whitespace-free runs, in order.
pub fn split_tokens(s: &str) -> (r: Vec<String>)
    ensures
        matches_words(r@, tokens(s@)),
{
    let ghost m = tokens(s@);
    let n = s.unicode_len();
    let mut out: Vec<String> = Vec::new();
    let mut i: usize = 0;
    let mut start: usize = 0;
    let mut in_word = false;
    proof {
        assert(s@.skip(0) =~= s@);
        assert(m.skip(0) =~= m);
        assert(s@.subrange(0, 0) =~= Seq::<char>::empty());
    }
    while i < n
        invariant
            i <= n == s@.len(),
            start <= i,
            !in_word ==> m.skip(out@.len() as int) == tokens_acc(
                s@.skip(i as int),
                Seq::empty(),
            ),
            in_word ==> start < i && m.skip(out@.len() as int) == tokens_acc(
                s@.skip(i as int),
                s@.subrange(start as int, i as int),
            ) && forall|k: int| start <= k < i ==> !is_space(s@[k]),
            out@.len() <= m.len(),
            forall|k: int| 0 <= k < out@.len() ==> out@[k]@ == m[k],
        decreases n - i,
    {
        let c = s.get_char(i);
        let ghost cur = if in_word {
            s@.subrange(start as int, i as int)
        } else {
            Seq::<char>::empty()
        };
        proof {
            assert(s@.skip(i as int)[0] == s@[i as int]);
            assert(s@.skip(i as int).drop_first() =~= s@.skip(i as int + 1));
        }
        if space_char(c) {
            if in_word {
                let word = s.substring_char(start, i).to_owned();
                proof {
                    let d = out@.len() as int;
                    assert(m.skip(d) == seq![cur] + tokens_acc(s@.skip(i as int + 1), Seq::empty()));
                    assert(m.skip(d)[0] == m[d]);
                    assert(m.skip(d).drop_first() =~= m.skip(d + 1));
                    assert(m.skip(d).len() == m.len() - d);
                }
                out.push(word);
                in_word = false;
            }
        } else {
            if !in_word {
                start = i;
                in_word = true;
            }
            proof {
                assert(cur.push(s@[i as int]) =~= s@.subrange(start as int, i as int + 1));
            }
        }
        i = i + 1;
    }
    if in_word {
        let word = s.substring_char(start, n).to_owned();
        proof {
            let d = out@.len() as int;
            let cur = s@.subrange(start as int, n as int);
            assert(s@.skip(n as int) =~= Seq::<char>::empty());
            assert(m.skip(d) == seq![cur]);
            assert(m.skip(d)[0] == m[d]);
            assert(m.skip(d).len() == m.len() - d);
            assert(m.skip(d).drop_first() =~= m.skip(d + 1));
            assert(m.skip(d + 1).len() == 0);
        }
        out.push(word);
    } else {
        proof {
            assert(s@.skip(n as int) =~= Seq::<char>::empty());
            assert(m.skip(out@.len() as int).len() == m.len() - out@.len());
        }
    }
    out
}

/// Character-by-character string equality.
pub fn str_eq(a: &str, b: &str) -> (r: bool)
    ensures
        r == (a@ == b@),
{
    let n = a.unicode_len();
    if n != b.unicode_len() {
        proof {
            assert(a@ != b@);
        }
        return false;
    }
    let mut i: usize = 0;
    while i < n
        invariant
            i <= n == a@.len() == b@.len(),
            forall|k: int| 0 <= k < i ==> a@[k] == b@[k],
        decreases n - i,
    {
        if a.get_char(i) != b.get_char(i) {
            proof {
                assert(a@ != b@);
            }
            return false;
        }
        i = i + 1;
    }
    proof {
        assert(a@ =~= b@);
    }
    true
}

/// The runtime views of a list of strings.
pub open spec fn views_of(v: Seq<String>) -> Seq<Seq<char>> {
    v.map_values(|w: String| w@)
}

/// Whether `v` holds a string whose view is `s@`.
pub fn contains_str(v: &Vec<String>, s: &str) -> (r: bool)
    ensures
        r == views_of(v@).contains(s@),
{
    let mut i: usize = 0;
    while i < v.len()
        invariant
            i <= v@.len(),
            forall|k: int| 0 <= k < i ==> v@[k]@ != s@,
        decreases v@.len() - i,
    {
        if str_eq(v[i].as_str(), s) {
            proof {
                assert(views_of(v@)[i as int] == s@);
            }
            return true;
        }
        i = i + 1;
    }
    proof {
        assert(forall|k: int| 0 <= k < v@.len() ==> views_of(v@)[k] == v@[k]@);
    }
    false
}

/// The elements of `v` joined by a single newline.
pub open spec fn join_nl(v: Seq<Seq<char>>) -> Seq<char>
    decreases v.len(),
{
    if v.len() == 0 {
        Seq::empty()
    } else if v.len() == 1 {
        v[0]
    } else {
        v[0] + seq!['\n'] + join_nl(v.drop_first())
    }
}

/// A file name under a directory, joined with a single slash.
pub open spec fn joined(dir: Seq<char>, file: Seq<char>) -> Seq<char> {
    dir + "/"@ + file
}

/// A base name with its extension, joined with a single dot.
pub open spec fn dotted(name: Seq<char>, ext: Seq<char>) -> Seq<char> {
    name + "."@ + ext
}

/// Joins a directory and a file name with a slash.
pub fn path_join(dir: &str, file: &str) -> (r: String)
    ensures
        r@ == joined(dir@, file@),
{
    let mut s = String::from_str(dir);
    s.append("/");
    s.append(file);
    s
}

/// Joins a base name and an extension with a dot.
pub fn dot_join(name: &str, ext: &str) -> (r: String)
    ensures
        r@ == dotted(name@, ext@),
{
    let mut s = String::from_str(name);
    s.append(".");
    s.append(ext);
    s
}

/// Extending a join by one element appends a newline and that element.
proof fn lemma_join_nl_snoc(vs: Seq<Seq<char>>, i: int)
    requires
        1 <= i < vs.len(),
    ensures
        join_nl(vs.take(i + 1)) == join_nl(vs.take(i)) + seq!['\n'] + vs[i],
    decreases i,
{
    if i == 1 {
        assert(vs.take(2).drop_first() =~= seq![vs[1]]);
        assert(vs.take(1) =~= seq![vs[0]]);
        assert(vs.take(2)[0] == vs[0]);
        assert(vs[0] + seq!['\n'] + join_nl(seq![vs[1]]) == vs[0] + seq!['\n'] + vs[1]);
    } else {
        lemma_join_nl_snoc(vs.drop_first(), i - 1);
        assert(vs.take(i + 1).drop_first() =~= vs.drop_first().take(i));
        assert(vs.take(i).drop_first() =~= vs.drop_first().take(i - 1));
        assert(vs.take(i + 1)[0] == vs[0]);
        assert(vs.take(i)[0] == vs[0]);
        assert(vs.drop_first()[i - 1] == vs[i]);
        assert(join_nl(vs.take(i + 1)) == vs[0] + seq!['\n'] + join_nl(vs.drop_first().take(i)));
        assert(join_nl(vs.take(i)) == vs[0] + seq!['\n'] + join_nl(vs.drop_first().take(i - 1)));
        assert(vs[0] + seq!['\n'] + (join_nl(vs.drop_first().take(i - 1)) + seq!['\n'] + vs[i])
            =~= (vs[0] + seq!['\n'] + join_nl(vs.drop_first().take(i - 1))) + seq!['\n'] + vs[i]);
    }
}

/// Joins the strings of `v` with newlines between them.
pub fn join_lines(v: &Vec<String>) -> (r: String)
    ensures
        r@ == join_nl(views_of(v@)),
{
    let ghost vs = views_of(v@);
    let mut out = String::new();
    if v.len() == 0 {
        return out;
    }
    out.append(v[0].as_str());
    proof {
        assert(vs.take(1) =~= seq![vs[0]]);
        assert(out@ =~= vs[0]);
    }
    let mut i: usize = 1;
    while i < v.len()
        invariant
            1 <= i <= v@.len(),
            vs == views_of(v@),
            out@ == join_nl(vs.take(i as int)),
        decreases v@.len() - i,
    {
        out.append("\n");
        out.append(v[i].as_str());
        proof {
            reveal_strlit("\n");
            assert("\n"@ =~= seq!['\n']);
            lemma_join_nl_snoc(vs, i as int);
        }
        i = i + 1;
    }
    proof {
        assert(vs.take(vs.len() as int) =~= vs);
    }
    out
}

/// One full line starting at `lo` and ending at `hi` (the next newline, or
/// the end of the text) contributes its trimmed word, if non-empty, and
/// the rest of the text continues with the next line number.
proof fn lemma_words_acc_line(s: Seq<char>, lo: int, hi: int, n: int)
    requires
        0 <= lo <= hi <= s.len(),
        forall|k: int| lo <= k < hi ==> s[k] != '\n',
        hi == s.len() || s[hi] == '\n',
    ensures
        words_acc(s.skip(lo), Seq::empty(), n) == ({
            let w = trimmed(s.subrange(lo, hi));
            let rest = if hi < s.len() {
                words_acc(s.skip(hi + 1), Seq::empty(), n + 1)
            } else {
                Seq::<(int, Seq<char>)>::empty()
            };
            if w.len() > 0 {
                seq![(n, w)] + rest
            } else {
                rest
            }
        }),
{
    lemma_words_acc_scan(s, lo, hi, hi, n);
    let cur = s.subrange(lo, hi);
    let w = trimmed(cur);
    if hi == s.len() {
        assert(s.skip(lo).skip(hi - lo) =~= Seq::<char>::empty());
        assert(words_acc(s.skip(lo), Seq::empty(), n) == words_acc(Seq::empty(), cur, n));
        if w.len() > 0 {
            assert(seq![(n, w)] + Seq::<(int, Seq<char>)>::empty() =~= seq![(n, w)]);
        }
    } else {
        let t = s.skip(lo).skip(hi - lo);
        assert(t[0] == s[hi]);
        assert(t.drop_first() =~= s.skip(hi + 1));
        assert(words_acc(s.skip(lo), Seq::empty(), n) == words_acc(t, cur, n));
    }
}

/// Scanning a newline-free stretch `p..hi` accumulates exactly the
/// characters of that stretch onto the current line.
proof fn lemma_words_acc_scan(s: Seq<char>, lo: int, p: int, hi: int, n: int)
    requires
        0 <= lo <= p <= hi <= s.len(),
        forall|k: int| lo <= k < hi ==> s[k] != '\n',
    ensures
        words_acc(s.skip(lo), Seq::empty(), n) == words_acc(
            s.skip(lo).skip(p - lo),
            s.subrange(lo, p),
            n,
        ),
    decreases p - lo,
{
    if p == lo {
        assert(s.skip(lo).skip(0) =~= s.skip(lo));
        assert(s.subrange(lo, lo) =~= Seq::<char>::empty());
    } else {
        lemma_words_acc_scan(s, lo, p - 1, hi, n);
        let t = s.skip(lo).skip(p - 1 - lo);
        assert(t[0] == s[p - 1]);
        assert(t.drop_first() =~= s.skip(lo).skip(p - lo));
        assert(s.subrange(lo, p - 1).push(s[p - 1]) =~= s.subrange(lo, p));
    }
}

} // verus!

