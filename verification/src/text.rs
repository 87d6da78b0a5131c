//! Verified text helpers: the small lexical rewrites the translator applies
//! to slices of the original source, and the string utilities they rest on.

use vstd::prelude::*;
use vstd::string::*;

verus! {

/// Character-wise equality of two string slices.
pub fn str_eq(a: &str, b: &str) -> (r: bool)
    ensures
        r == (a@ == b@),
{
    let alen = a.unicode_len();
    let blen = b.unicode_len();
    if alen != blen {
        return false;
    }
    let mut i: usize = 0;
    while i < alen
        invariant
            alen == a@.len(),
            alen == b@.len(),
            i <= alen,
            forall|j: int| 0 <= j < i ==> a@[j] == b@[j],
        decreases alen - i,
    {
        if a.get_char(i) != b.get_char(i) {
            return false;
        }
        i += 1;
    }
    proof {
        assert(a@ =~= b@);
    }
    true
}

/// The characters `start .. end` of `src`, as an owned string.
pub fn slice_chars(src: &str, start: usize, end: usize) -> (r: String)
    requires
        start <= end <= src@.len(),
    ensures
        r@ == src@.subrange(start as int, end as int),
{
    src.substring_char(start, end).to_owned()
}

/// Whether the text holds a space or a newline.
pub open spec fn has_ws(s: Seq<char>) -> bool {
    exists|i: int| 0 <= i < s.len() && (s[i] == ' ' || s[i] == '\n')
}

pub fn has_ws_exec(s: &str) -> (r: bool)
    ensures
        r == has_ws(s@),
{
    let n = s.unicode_len();
    let mut i: usize = 0;
    while i < n
        invariant
            n == s@.len(),
            i <= n,
            forall|j: int| 0 <= j < i ==> !(s@[j] == ' ' || s@[j] == '\n'),
        decreases n - i,
    {
        let c = s.get_char(i);
        if c == ' ' || c == '\n' {
            return true;
        }
        i += 1;
    }
    false
}

/// Whether the text holds the two-character lambda arrow `=>`.
pub open spec fn has_arrow(s: Seq<char>) -> bool {
    exists|i: int| 0 <= i && i + 1 < s.len() && #[trigger] s[i] == '=' && s[i + 1] == '>'
}

pub fn has_arrow_exec(s: &str) -> (r: bool)
    ensures
        r == has_arrow(s@),
{
    let n = s.unicode_len();
    if n < 2 {
        return false;
    }
    let mut i: usize = 0;
    while i + 1 < n
        invariant
            n == s@.len(),
            i + 1 <= n,
            forall|j: int| 0 <= j && j + 1 < i + 1 ==> !(#[trigger] s@[j] == '=' && s@[j + 1]
                == '>'),
        decreases n - i,
    {
        if s.get_char(i) == '=' && s.get_char(i + 1) == '>' {
            return true;
        }
        i += 1;
    }
    false
}

/// The import-suffix rewrite: a trailing wildcard-import suffix `._` becomes
/// `.*`; text without that suffix — interior `._` pairs included — stays
/// verbatim.
pub open spec fn rewrite_wildcard(s: Seq<char>) -> Seq<char> {
    if s.len() >= 2 && s[s.len() - 2] == '.' && s[s.len() - 1] == '_' {
        s.take(s.len() - 2) + ".*"@
    } else {
        s
    }
}

pub fn rewrite_wildcard_exec(s: &str) -> (r: String)
    ensures
        r@ == rewrite_wildcard(s@),
{
    let n = s.unicode_len();
    if n >= 2 && s.get_char(n - 2) == '.' && s.get_char(n - 1) == '_' {
        let mut r = s.substring_char(0, n - 2).to_owned();
        r.append(".*");
        proof {
            assert(s@.subrange(0, n - 2) =~= s@.take(s@.len() - 2));
        }
        r
    } else {
        s.to_owned()
    }
}

/// The bracket substitution used for generic syntax: `[` becomes `<` and `]`
/// becomes `>`; every other character stays.
pub open spec fn angle_char(c: char) -> char {
    if c == '[' {
        '<'
    } else if c == ']' {
        '>'
    } else {
        c
    }
}

pub open spec fn rewrite_angles(s: Seq<char>) -> Seq<char> {
    Seq::new(s.len(), |i: int| angle_char(s[i]))
}

pub fn rewrite_angles_exec(s: &str) -> (r: String)
    ensures
        r@ == rewrite_angles(s@),
{
    let n = s.unicode_len();
    let mut r = String::new();
    let mut i: usize = 0;
    proof {
        assert(r@ =~= rewrite_angles(s@.take(0)));
    }
    while i < n
        invariant
            n == s@.len(),
            i <= n,
            r@ == rewrite_angles(s@.take(i as int)),
        decreases n - i,
    {
        let c = s.get_char(i);
        if c == '[' {
            r.append("<");
            proof {
                reveal_strlit("<");
            }
        } else if c == ']' {
            r.append(">");
            proof {
                reveal_strlit(">");
            }
        } else {
            r.append(s.substring_char(i, i + 1));
        }
        proof {
            assert(r@ =~= rewrite_angles(s@.take(i + 1)));
        }
        i += 1;
    }
    proof {
        assert(s@.take(n as int) =~= s@);
    }
    r
}

/// Where the last dot-separated segment of `s` begins: the index just after
/// the last `.`, or `0` when there is none.
pub open spec fn seg_start(s: Seq<char>) -> int
    decreases s.len(),
{
    if s.len() == 0 {
        0
    } else if s.last() == '.' {
        s.len() as int
    } else {
        seg_start(s.drop_last())
    }
}

/// The type-identifier rewrite: brackets become angles, but only in the last
/// dot-separated segment; qualifying segments stay untouched.
pub open spec fn rewrite_type_ident(s: Seq<char>) -> Seq<char> {
    s.take(seg_start(s)) + rewrite_angles(s.skip(seg_start(s)))
}

pub fn rewrite_type_ident_exec(s: &str) -> (r: String)
    ensures
        r@ == rewrite_type_ident(s@),
{
    let n = s.unicode_len();
    let mut k: usize = 0;
    let mut i: usize = 0;
    proof {
        assert(s@.take(0) =~= Seq::<char>::empty());
    }
    while i < n
        invariant
            n == s@.len(),
            i <= n,
            k <= i,
            k as int == seg_start(s@.take(i as int)),
        decreases n - i,
    {
        proof {
            assert(s@.take(i + 1).drop_last() =~= s@.take(i as int));
        }
        if s.get_char(i) == '.' {
            k = i + 1;
        }
        i += 1;
    }
    proof {
        assert(s@.take(n as int) =~= s@);
    }
    let mut r = s.substring_char(0, k).to_owned();
    let suffix = rewrite_angles_exec(s.substring_char(k, n));
    r.append(suffix.as_str());
    proof {
        assert(s@.subrange(0, k as int) =~= s@.take(seg_start(s@)));
        assert(s@.subrange(k as int, n as int) =~= s@.skip(seg_start(s@)));
    }
    r
}

/// The parts of `parts` concatenated with `sep` between consecutive parts.
pub open spec fn join_with(parts: Seq<Seq<char>>, sep: Seq<char>) -> Seq<char>
    decreases parts.len(),
{
    if parts.len() == 0 {
        Seq::<char>::empty()
    } else if parts.len() == 1 {
        parts[0]
    } else {
        parts[0] + sep + join_with(parts.drop_first(), sep)
    }
}

/// The parts of `parts` concatenated with nothing between them.
pub open spec fn concat_all(parts: Seq<Seq<char>>) -> Seq<char>
    decreases parts.len(),
{
    if parts.len() == 0 {
        Seq::<char>::empty()
    } else {
        parts[0] + concat_all(parts.drop_first())
    }
}

fn join_from(v: &Vec<String>, i: usize, sep: &str) -> (r: String)
    requires
        i <= v.len(),
    ensures
        r@ == join_with(v.deep_view().skip(i as int), sep@),
    decreases v.len() - i,
{
    if i == v.len() {
        proof {
            assert(v.deep_view().skip(i as int) =~= Seq::<Seq<char>>::empty());
        }
        String::new()
    } else if i + 1 == v.len() {
        let r = v[i].clone();
        proof {
            assert(v.deep_view().skip(i as int).len() == 1);
            assert(v.deep_view().skip(i as int)[0] == v.deep_view()[i as int]);
        }
        r
    } else {
        let mut r = v[i].clone();
        r.append(sep);
        let rest = join_from(v, i + 1, sep);
        r.append(rest.as_str());
        proof {
            assert(v.deep_view().skip(i as int)[0] == v.deep_view()[i as int]);
            assert(v.deep_view().skip(i as int).drop_first() =~= v.deep_view().skip(i as int + 1));
        }
        r
    }
}

/// Joins the fragments of `v` with `sep` between consecutive fragments.
pub fn join_all(v: &Vec<String>, sep: &str) -> (r: String)
    ensures
        r@ == join_with(v.deep_view(), sep@),
{
    let r = join_from(v, 0, sep);
    proof {
        assert(v.deep_view().skip(0) =~= v.deep_view());
    }
    r
}

fn concat_from(v: &Vec<String>, i: usize) -> (r: String)
    requires
        i <= v.len(),
    ensures
        r@ == concat_all(v.deep_view().skip(i as int)),
    decreases v.len() - i,
{
    if i == v.len() {
        proof {
            assert(v.deep_view().skip(i as int) =~= Seq::<Seq<char>>::empty());
        }
        String::new()
    } else {
        let mut r = v[i].clone();
        let rest = concat_from(v, i + 1);
        r.append(rest.as_str());
        proof {
            assert(v.deep_view().skip(i as int)[0] == v.deep_view()[i as int]);
            assert(v.deep_view().skip(i as int).drop_first() =~= v.deep_view().skip(i as int + 1));
        }
        r
    }
}

/// Concatenates the fragments of `v` in order.
pub fn concat_all_exec(v: &Vec<String>) -> (r: String)
    ensures
        r@ == concat_all(v.deep_view()),
{
    let r = concat_from(v, 0);
    proof {
        assert(v.deep_view().skip(0) =~= v.deep_view());
    }
    r
}

/// The index of the first newline in `s`, or `s.len()` when there is none.
pub open spec fn first_nl(s: Seq<char>) -> int
    decreases s.len(),
{
    if s.len() == 0 {
        0
    } else if s[0] == '\n' {
        0
    } else {
        1 + first_nl(s.drop_first())
    }
}

pub proof fn lemma_first_nl(s: Seq<char>)
    ensures
        0 <= first_nl(s) <= s.len(),
        first_nl(s) < s.len() ==> s[first_nl(s)] == '\n',
        forall|j: int| 0 <= j < first_nl(s) ==> s[j] != '\n',
    decreases s.len(),
{
    if s.len() > 0 && s[0] != '\n' {
        lemma_first_nl(s.drop_first());
        assert forall|j: int| 0 <= j < first_nl(s) implies s[j] != '\n' by {
            if j > 0 {
                assert(s.drop_first()[j - 1] != '\n');
            }
        }
    }
}

/// The lines of `s`: split at `\n`, with a `\r` just before the `\n`
/// stripped; a final line without a newline stands as it is, and a trailing
/// newline yields no empty final line.
pub open spec fn line_split(s: Seq<char>) -> Seq<Seq<char>>
    decreases s.len(),
    via line_split_decreases
{
    if s.len() == 0 {
        Seq::<Seq<char>>::empty()
    } else {
        let i = first_nl(s);
        if i == s.len() {
            seq![s]
        } else {
            let line = if i > 0 && s[i - 1] == '\r' {
                s.subrange(0, i - 1)
            } else {
                s.subrange(0, i)
            };
            seq![line] + line_split(s.subrange(i + 1, s.len() as int))
        }
    }
}

#[via_fn]
proof fn line_split_decreases(s: Seq<char>) {
    lemma_first_nl(s);
}

/// Each line of `s` prefixed with `// `, the lines joined with newlines:
/// the body of the fallback comment that preserves unrecognized source.
pub open spec fn commented(s: Seq<char>) -> Seq<char> {
    join_with(Seq::new(line_split(s).len(), |i: int| "// "@ + line_split(s)[i]), "\n"@)
}

/// `first_nl` is the one index with a newline there and none before it.
proof fn lemma_first_nl_unique(x: Seq<char>, p: int)
    requires
        0 <= p <= x.len(),
        p < x.len() ==> x[p] == '\n',
        forall|j: int| 0 <= j < p ==> x[j] != '\n',
    ensures
        first_nl(x) == p,
{
    lemma_first_nl(x);
    if first_nl(x) < p {
        assert(x[first_nl(x)] == '\n');
    } else if first_nl(x) > p {
        assert(p < x.len());
    }
}

/// Splitting the commented rendering back into lines recovers the source's
/// lines, each behind a `// ` marker — for source text free of carriage
/// returns, whose lines the split does not trim further.
pub proof fn lemma_commented_lines(s: Seq<char>)
    requires
        forall|j: int| 0 <= j < s.len() ==> s[j] != '\r',
    ensures
        line_split(commented(s)) == Seq::new(
            line_split(s).len(),
            |i: int| "// "@ + line_split(s)[i],
        ),
    decreases s.len(),
{
    reveal_strlit("// ");
    reveal_strlit("\n");
    lemma_first_nl(s);
    let pre = "// "@;
    let nl = "\n"@;
    let ls = line_split(s);
    let mapped = Seq::new(ls.len(), |i: int| pre + ls[i]);
    if s.len() == 0 {
        assert(ls =~= Seq::<Seq<char>>::empty());
        assert(mapped =~= Seq::<Seq<char>>::empty());
        assert(commented(s) =~= Seq::<char>::empty());
        assert(line_split(commented(s)) =~= mapped);
    } else {
        let i = first_nl(s);
        if i == s.len() {
            let c = pre + s;
            assert(commented(s) == join_with(mapped, nl));
            assert(mapped.len() == 1 && mapped[0] == c);
            assert(join_with(mapped, nl) == c);
            assert forall|j: int| 0 <= j < c.len() implies c[j] != '\n' by {
                if j >= 3 {
                    assert(s[j - 3] != '\n');
                }
            }
            lemma_first_nl_unique(c, c.len() as int);
            assert(line_split(c) =~= seq![c]);
            assert(line_split(commented(s)) =~= mapped);
        } else {
            assert(i > 0 ==> s[i - 1] != '\r');
            let line = s.subrange(0, i);
            let rest = s.subrange(i + 1, s.len() as int);
            assert(ls == seq![line] + line_split(rest));
            lemma_commented_lines(rest);
            let lsr = line_split(rest);
            let mappedr = Seq::new(lsr.len(), |k: int| pre + lsr[k]);
            assert(mapped[0] == pre + line);
            assert(mapped.drop_first() =~= mappedr);
            if rest.len() == 0 {
                let c = pre + line;
                assert(lsr =~= Seq::<Seq<char>>::empty());
                assert(mapped.len() == 1);
                assert(commented(s) == join_with(mapped, nl));
                assert(join_with(mapped, nl) == c);
                assert forall|j: int| 0 <= j < c.len() implies c[j] != '\n' by {
                    if j >= 3 {
                        assert(s[j - 3] != '\n');
                    }
                }
                lemma_first_nl_unique(c, c.len() as int);
                assert(line_split(c) =~= seq![c]);
                assert(line_split(commented(s)) =~= mapped);
            } else {
                let c = commented(s);
                assert(lsr.len() > 0);
                assert(mapped.len() > 1);
                assert(c == mapped[0] + nl + join_with(mappedr, nl));
                assert(c =~= pre + line + nl + commented(rest));
                let p = 3 + line.len() as int;
                assert forall|j: int| 0 <= j < p implies c[j] != '\n' by {
                    if j >= 3 {
                        assert(c[j] == line[j - 3]);
                        assert(s[j - 3] != '\n');
                    }
                }
                assert(c[p] == '\n');
                lemma_first_nl_unique(c, p);
                assert(c[p - 1] != '\r') by {
                    if p - 1 >= 3 {
                        assert(c[p - 1] == line[p - 4]);
                        assert(s[p - 4] != '\r');
                    }
                }
                let cline = c.subrange(0, p);
                let crest = c.subrange(p + 1, c.len() as int);
                assert(cline =~= pre + line);
                assert(crest =~= commented(rest));
                assert(line_split(c) == seq![cline] + line_split(crest));
                assert(line_split(commented(s)) =~= mapped);
            }
        }
    }
}

fn find_nl(s: &str) -> (r: usize)
    ensures
        r as int == first_nl(s@),
{
    let n = s.unicode_len();
    let mut i: usize = 0;
    proof {
        lemma_first_nl(s@);
    }
    while i < n
        invariant
            n == s@.len(),
            i <= n,
            0 <= first_nl(s@) <= n,
            first_nl(s@) < n ==> s@[first_nl(s@)] == '\n',
            forall|j: int| 0 <= j < first_nl(s@) ==> s@[j] != '\n',
            forall|j: int| 0 <= j < i ==> s@[j] != '\n',
        decreases n - i,
    {
        if s.get_char(i) == '\n' {
            return i;
        }
        i += 1;
    }
    n
}

pub fn commented_exec(s: &str) -> (r: String)
    ensures
        r@ == commented(s@),
    decreases s@.len(),
{
    let n = s.unicode_len();
    if n == 0 {
        return String::new();
    }
    let i = find_nl(s);
    proof {
        lemma_first_nl(s@);
    }
    if i == n {
        let mut r = String::from_str("// ");
        r.append(s);
        proof {
            assert(line_split(s@) =~= seq![s@]);
            let mapped = Seq::new(line_split(s@).len(), |k: int| "// "@ + line_split(s@)[k]);
            assert(mapped.len() == 1);
            assert(mapped[0] == "// "@ + s@);
        }
        r
    } else {
        let line_end: usize = if i > 0 && s.get_char(i - 1) == '\r' {
            i - 1
        } else {
            i
        };
        let mut r = String::from_str("// ");
        r.append(s.substring_char(0, line_end));
        let rest = s.substring_char(i + 1, n);
        if rest.unicode_len() > 0 {
            let tail = commented_exec(rest);
            r.append("\n");
            r.append(tail.as_str());
        }
        proof {
            let ls = line_split(s@);
            let mapped = Seq::new(ls.len(), |k: int| "// "@ + ls[k]);
            let line = s@.subrange(0, line_end as int);
            let restv = s@.subrange(i + 1, s@.len() as int);
            assert(ls == seq![line] + line_split(restv));
            assert(mapped[0] == "// "@ + line);
            if restv.len() == 0 {
                assert(line_split(restv) =~= Seq::<Seq<char>>::empty());
                assert(mapped.len() == 1);
            } else {
                let lsr = line_split(restv);
                let mappedr = Seq::new(lsr.len(), |k: int| "// "@ + lsr[k]);
                assert(mapped.drop_first() =~= mappedr);
                assert(lsr.len() > 0);
                assert(mapped.len() > 1);
                assert(r@ == mapped[0] + "\n"@ + join_with(mappedr, "\n"@));
            }
        }
        r
    }
}

} // verus!
