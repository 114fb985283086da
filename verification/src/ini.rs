//! Line-oriented editing of `emu.cfg`-style ini text.
use vstd::prelude::*;
use crate::text::{
    chars_of, field_views, is_whitespace_char, is_ws, lemma_split_nonempty, lemma_trim_start_skip,
    split_fields, split_on, trim, trim_bounds, trim_start,
};

verus! {

/// `l` without one trailing carriage return.
pub open spec fn strip_cr(l: Seq<char>) -> Seq<char> {
    if l.len() > 0 && l.last() == '\r' {
        l.drop_last()
    } else {
        l
    }
}

/// The lines of `s` as `str::lines` yields them: cut at `\n`, a `\r` before the `\n` dropped,
/// and no empty line after a final `\n`.
pub open spec fn lines(s: Seq<char>) -> Seq<Seq<char>> {
    let f = split_fields(s, '\n');
    let n = if f.last().len() == 0 {
        f.len() - 1
    } else {
        f.len() as int
    };
    Seq::new(
        n as nat,
        |k: int|
            if k + 1 < f.len() {
                strip_cr(f[k])
            } else {
                f[k]
            },
    )
}

/// Each line of `ls` followed by `\n`, in order.
pub open spec fn unlines(ls: Seq<Seq<char>>) -> Seq<char>
    decreases ls.len(),
{
    if ls.len() == 0 {
        Seq::empty()
    } else {
        unlines(ls.drop_last()) + ls.last() + seq!['\n']
    }
}

/// Whether `s` begins with `p`.
pub open spec fn starts_with(s: Seq<char>, p: Seq<char>) -> bool {
    p.len() <= s.len() && s.take(p.len() as int) == p
}

/// The separator between a key and its value.
pub open spec fn assign_sep() -> Seq<char> {
    seq![' ', '=', ' ']
}

/// The section header that the settings live under, with its line break.
pub open spec fn config_header() -> Seq<char> {
    seq!['[', 'c', 'o', 'n', 'f', 'i', 'g', ']', '\n']
}

/// The first line at or after `from` that, indentation aside, begins with `p`.
pub open spec fn first_line_with(ls: Seq<Seq<char>>, p: Seq<char>, from: int) -> Option<int>
    decreases ls.len() - from,
{
    if from < 0 || from >= ls.len() {
        None
    } else if starts_with(trim_start(ls[from]), p) {
        Some(from)
    } else {
        first_line_with(ls, p, from + 1)
    }
}

/// The first position at or after `from` where `pat` occurs in `s`.
pub open spec fn find_from(s: Seq<char>, pat: Seq<char>, from: int) -> Option<int>
    decreases s.len() + 1 - from,
{
    if from < 0 || from > s.len() || from + pat.len() > s.len() {
        None
    } else if s.subrange(from, from + pat.len()) == pat {
        Some(from)
    } else {
        find_from(s, pat, from + 1)
    }
}

/// The header line's text.
pub open spec fn config_name() -> Seq<char> {
    seq!['[', 'c', 'o', 'n', 'f', 'i', 'g', ']']
}

/// The first line at or after `from` that equals `l`.
pub open spec fn first_line_eq(ls: Seq<Seq<char>>, l: Seq<char>, from: int) -> Option<int>
    decreases ls.len() - from,
{
    if from < 0 || from >= ls.len() {
        None
    } else if ls[from] == l {
        Some(from)
    } else {
        first_line_eq(ls, l, from + 1)
    }
}

/// Whether `l` is a section header: trimmed, it starts with `[` and ends with `]`.
pub open spec fn is_section_header(l: Seq<char>) -> bool {
    let t = trim(l);
    t.len() > 0 && t[0] == '[' && t.last() == ']'
}

/// The first section header line at or after `from`.
pub open spec fn first_header_line(ls: Seq<Seq<char>>, from: int) -> Option<int>
    decreases ls.len() - from,
{
    if from < 0 || from >= ls.len() {
        None
    } else if is_section_header(ls[from]) {
        Some(from)
    } else {
        first_header_line(ls, from + 1)
    }
}

/// The line where the section whose body starts at `from` ends: the first section header line
/// at or after `from`, or the end of the text.
pub open spec fn section_end(ls: Seq<Seq<char>>, from: int) -> int {
    match first_header_line(ls, from) {
        Some(j) => j,
        None => ls.len() as int,
    }
}

/// The line of the `[config]` section that carries `key`: the first line inside the section
/// that follows the first `[config]` header line whose unindented start is `key = `.
pub open spec fn config_key_line(ls: Seq<Seq<char>>, key: Seq<char>) -> Option<int> {
    match first_line_eq(ls, config_name(), 0) {
        Some(h) => first_line_with(ls.take(section_end(ls, h + 1)), key + assign_sep(), h + 1),
        None => None,
    }
}

/// `text` ended by a line break, unless it is empty or already ends with one.
pub open spec fn closed(text: Seq<char>) -> Seq<char> {
    if text.len() > 0 && text.last() != '\n' {
        text.push('\n')
    } else {
        text
    }
}

/// The fields `fs` joined by line breaks, as `str::split` cut them.
pub open spec fn join_lines(fs: Seq<Seq<char>>) -> Seq<char>
    decreases fs.len(),
{
    if fs.len() == 0 {
        Seq::empty()
    } else if fs.len() == 1 {
        fs[0]
    } else {
        join_lines(fs.drop_last()) + seq!['\n'] + fs.last()
    }
}

/// The text after setting `key = value` under the `[config]` section. Where the text has a
/// `[config]` header line and the section has a `key = ` line, the text is rewritten line by
/// line (each line ending in `\n`) with that line replaced by the setting. Where the section
/// has none, the line `key = value` is put right after the header line and the rest of the
/// text is kept as it is (after a header that ends the text, a line break comes first). Where
/// the text has no header line, a `[config]` header and the setting are appended on lines of
/// their own.
pub open spec fn set_ini_result(text: Seq<char>, key: Seq<char>, value: Seq<char>) -> Seq<char> {
    let entry = key + assign_sep() + value;
    let ls = lines(text);
    let f = split_fields(text, '\n');
    match first_line_eq(ls, config_name(), 0) {
        Some(h) => match config_key_line(ls, key) {
            Some(k) => unlines(ls.update(k, entry)),
            None => if h + 1 < f.len() {
                join_lines(f.insert(h + 1, entry))
            } else {
                text + seq!['\n'] + entry + seq!['\n']
            },
        },
        None => closed(text) + config_header() + entry + seq!['\n'],
    }
}

/// The number of lines of `v`, given its `\n` fields `f`.
fn line_count(v: &Vec<char>, f: &Vec<(usize, usize)>) -> (n: usize)
    requires
        f.len() == split_fields(v@, '\n').len(),
        forall|k: int|
            #![trigger f@[k]]
            0 <= k < f.len() ==> f@[k].0 <= f@[k].1 <= v.len() && v@.subrange(
                f@[k].0 as int,
                f@[k].1 as int,
            ) == split_fields(v@, '\n')[k],
    ensures
        n == lines(v@).len(),
        n <= f.len(),
{
    proof {
        lemma_split_nonempty(v@, '\n');
    }
    let last = f[f.len() - 1];
    if last.0 == last.1 {
        f.len() - 1
    } else {
        f.len()
    }
}

/// The character range of line `k` of `v`.
fn line_range(v: &Vec<char>, f: &Vec<(usize, usize)>, k: usize) -> (r: (usize, usize))
    requires
        f.len() == split_fields(v@, '\n').len(),
        forall|j: int|
            #![trigger f@[j]]
            0 <= j < f.len() ==> f@[j].0 <= f@[j].1 <= v.len() && v@.subrange(
                f@[j].0 as int,
                f@[j].1 as int,
            ) == split_fields(v@, '\n')[j],
        k < lines(v@).len(),
    ensures
        r.0 <= r.1 <= v.len(),
        v@.subrange(r.0 as int, r.1 as int) == lines(v@)[k as int],
{
    proof {
        lemma_split_nonempty(v@, '\n');
    }
    let (a, b) = f[k];
    let ghost fk = split_fields(v@, '\n')[k as int];
    if k + 1 < f.len() && b > a && v[b - 1] == '\r' {
        proof {
            assert(v@.subrange(a as int, b - 1) =~= fk.drop_last());
        }
        (a, b - 1)
    } else {
        (a, b)
    }
}

/// Whether `v[a..b]`, indentation aside, begins with `p`.
fn has_prefix_after_indent(v: &Vec<char>, a: usize, b: usize, p: &Vec<char>) -> (r: bool)
    requires
        a <= b <= v.len(),
    ensures
        r == starts_with(trim_start(v@.subrange(a as int, b as int)), p@),
{
    let ghost l = v@.subrange(a as int, b as int);
    let mut lo = a;
    while lo < b && is_whitespace_char(v[lo])
        invariant
            a <= lo <= b <= v.len(),
            l == v@.subrange(a as int, b as int),
            forall|k: int| 0 <= k < lo - a ==> is_ws(#[trigger] l[k]),
        decreases b - lo,
    {
        lo = lo + 1;
    }
    proof {
        lemma_trim_start_skip(l, lo - a);
        let t = l.skip(lo - a);
        assert(t =~= v@.subrange(lo as int, b as int));
        if lo < b {
            assert(t[0] == v@[lo as int]);
        }
        assert(trim_start(t) == t);
    }
    if b - lo < p.len() {
        return false;
    }
    let mut i: usize = 0;
    while i < p.len()
        invariant
            a <= lo <= b <= v.len(),
            l == v@.subrange(a as int, b as int),
            trim_start(l) == v@.subrange(lo as int, b as int),
            p.len() <= b - lo,
            i <= p.len(),
            forall|k: int| 0 <= k < i ==> v@[lo + k] == p@[k],
        decreases p.len() - i,
    {
        if v[lo + i] != p[i] {
            proof {
                let t = v@.subrange(lo as int, b as int);
                assert(t.take(p.len() as int)[i as int] == v@[lo + i]);
                assert(t.take(p.len() as int)[i as int] != p@[i as int]);
                assert(t.take(p.len() as int) != p@);
                assert(trim_start(l) == t);
            }
            return false;
        }
        i = i + 1;
    }
    proof {
        let t = v@.subrange(lo as int, b as int);
        assert(t.take(p.len() as int) =~= p@);
    }
    true
}

/// Whether `v` holds `pat` at `i`.
fn occurs_at(v: &Vec<char>, pat: &Vec<char>, i: usize) -> (r: bool)
    requires
        i + pat.len() <= v.len(),
    ensures
        r == (v@.subrange(i as int, i + pat.len()) == pat@),
{
    let mut j: usize = 0;
    while j < pat.len()
        invariant
            i + pat.len() <= v.len(),
            j <= pat.len(),
            forall|k: int| 0 <= k < j ==> v@[i + k] == pat@[k],
        decreases pat.len() - j,
    {
        if v[i + j] != pat[j] {
            proof {
                assert(v@.subrange(i as int, i + pat.len())[j as int] == v@[i + j]);
            }
            return false;
        }
        j = j + 1;
    }
    proof {
        assert(v@.subrange(i as int, i + pat.len()) =~= pat@);
    }
    true
}

/// The first position where `pat` occurs in `v`.
pub fn find_first(v: &Vec<char>, pat: &Vec<char>) -> (r: Option<usize>)
    ensures
        match find_from(v@, pat@, 0) {
            Some(i) => r == Some(i as usize),
            None => r is None,
        },
{
    if pat.len() > v.len() {
        return None;
    }
    let last = v.len() - pat.len();
    let mut i: usize = 0;
    while i <= last
        invariant
            pat.len() <= v.len(),
            last == v.len() - pat.len(),
            i <= last + 1,
            find_from(v@, pat@, 0) == find_from(v@, pat@, i as int),
        decreases last + 1 - i,
    {
        if occurs_at(v, pat, i) {
            return Some(i);
        }
        if i == last {
            return None;
        }
        i = i + 1;
    }
    None
}

/// Writing one more line adds it and its line break at the end.
pub proof fn lemma_unlines_push(ls: Seq<Seq<char>>, l: Seq<char>)
    ensures
        unlines(ls.push(l)) == unlines(ls) + l + seq!['\n'],
{
    assert(ls.push(l).drop_last() =~= ls);
}

/// Whether `f` holds, in order, the character ranges of the `\n`-separated fields of `v`.
pub open spec fn line_fields(v: Seq<char>, f: Seq<(usize, usize)>) -> bool {
    &&& f.len() == split_fields(v, '\n').len()
    &&& forall|j: int|
        #![trigger f[j]]
        0 <= j < f.len() ==> f[j].0 <= f[j].1 <= v.len() && v.subrange(f[j].0 as int, f[j].1 as int)
            == split_fields(v, '\n')[j]
}

/// Writing two runs of lines one after the other writes each in turn.
pub proof fn lemma_unlines_concat(a: Seq<Seq<char>>, b: Seq<Seq<char>>)
    ensures
        unlines(a + b) == unlines(a) + unlines(b),
    decreases b.len(),
{
    if b.len() == 0 {
        assert(a + b =~= a);
        assert(unlines(a) + unlines(b) =~= unlines(a));
    } else {
        lemma_unlines_concat(a, b.drop_last());
        assert((a + b).drop_last() =~= a + b.drop_last());
        assert((a + b).last() == b.last());
        assert(unlines(a + b) =~= unlines(a) + unlines(b));
    }
}

/// Lines `from..to` of `s`, whose characters are `v`, each followed by `\n`.
fn lines_text(s: &str, v: &Vec<char>, f: &Vec<(usize, usize)>, from: usize, to: usize) -> (r: String)
    requires
        v@ == s@,
        line_fields(v@, f@),
        from <= to <= lines(v@).len(),
    ensures
        r@ == unlines(lines(v@).subrange(from as int, to as int)),
{
    let ghost ls = lines(v@);
    let mut out = String::new();
    let mut j = from;
    proof {
        assert(ls.subrange(from as int, from as int) =~= Seq::<Seq<char>>::empty());
        assert(out@ =~= Seq::<char>::empty());
    }
    while j < to
        invariant
            v@ == s@,
            line_fields(v@, f@),
            ls == lines(v@),
            from <= j <= to <= ls.len(),
            out@ == unlines(ls.subrange(from as int, j as int)),
        decreases to - j,
    {
        let (c, d) = line_range(v, f, j);
        let ghost before = out@;
        out.append(s.substring_char(c, d));
        let ghost mid = out@;
        proof {
            reveal_strlit("\n");
        }
        out.append("\n");
        proof {
            assert("\n"@ =~= seq!['\n']);
            assert(ls.subrange(from as int, j + 1) =~= ls.subrange(from as int, j as int).push(
                ls[j as int],
            ));
            lemma_unlines_push(ls.subrange(from as int, j as int), ls[j as int]);
            assert(out@ =~= before + ls[j as int] + seq!['\n']);
        }
        j = j + 1;
    }
    out
}

/// The first line in `from..to` of `v` whose unindented start is `p`.
fn first_prefixed_line(
    v: &Vec<char>,
    f: &Vec<(usize, usize)>,
    p: &Vec<char>,
    from: usize,
    to: usize,
) -> (r: Option<usize>)
    requires
        line_fields(v@, f@),
        from <= to <= lines(v@).len(),
    ensures
        r matches Some(j) ==> from <= j < to && first_line_with(lines(v@).take(to as int), p@, from as int)
            == Some(j as int),
        r is None ==> first_line_with(lines(v@).take(to as int), p@, from as int) is None,
{
    let ghost lt = lines(v@).take(to as int);
    let mut k = from;
    while k < to
        invariant
            line_fields(v@, f@),
            lt == lines(v@).take(to as int),
            from <= k <= to <= lines(v@).len(),
            first_line_with(lt, p@, from as int) == first_line_with(lt, p@, k as int),
            forall|j: int| from <= j < k ==> !starts_with(trim_start(#[trigger] lt[j]), p@),
        decreases to - k,
    {
        let (a, b) = line_range(v, f, k);
        if has_prefix_after_indent(v, a, b, p) {
            proof {
                assert(lt[k as int] == lines(v@)[k as int]);
            }
            return Some(k);
        }
        proof {
            assert(lt[k as int] == lines(v@)[k as int]);
        }
        k = k + 1;
    }
    None
}

/// The first line of `v` that equals `l`.
fn first_equal_line(v: &Vec<char>, f: &Vec<(usize, usize)>, l: &Vec<char>) -> (r: Option<usize>)
    requires
        line_fields(v@, f@),
    ensures
        r matches Some(j) ==> j < lines(v@).len() && first_line_eq(lines(v@), l@, 0) == Some(j as int),
        r is None ==> first_line_eq(lines(v@), l@, 0) is None,
{
    let ghost ls = lines(v@);
    let n = line_count(v, f);
    let mut k: usize = 0;
    while k < n
        invariant
            line_fields(v@, f@),
            ls == lines(v@),
            n == ls.len(),
            k <= n,
            first_line_eq(ls, l@, 0) == first_line_eq(ls, l@, k as int),
        decreases n - k,
    {
        let (a, b) = line_range(v, f, k);
        if b - a == l.len() && occurs_at(v, l, a) {
            return Some(k);
        }
        proof {
            if ls[k as int] == l@ {
                assert(b - a == l.len());
            }
        }
        k = k + 1;
    }
    None
}

/// The lines of `v` before `at`, the line `key = value`, and the lines of `v` from `skip` on,
/// each followed by `\n`.
fn splice(
    s: &str,
    v: &Vec<char>,
    f: &Vec<(usize, usize)>,
    at: usize,
    skip: usize,
    key: &str,
    value: &str,
) -> (r: String)
    requires
        v@ == s@,
        line_fields(v@, f@),
        at <= skip <= lines(v@).len(),
    ensures
        r@ == unlines(
            lines(v@).subrange(0, at as int) + seq![key@ + assign_sep() + value@] + lines(
                v@,
            ).subrange(skip as int, lines(v@).len() as int),
        ),
{
    let ghost ls = lines(v@);
    let ghost entry = key@ + assign_sep() + value@;
    let n = line_count(v, f);
    let mut out = lines_text(s, v, f, 0, at);
    let ghost o0 = out@;
    proof {
        reveal_strlit(" = ");
        reveal_strlit("\n");
        assert(" = "@ =~= assign_sep());
        assert("\n"@ =~= seq!['\n']);
    }
    out.append(key);
    out.append(" = ");
    out.append(value);
    out.append("\n");
    let ghost o1 = out@;
    let rest = lines_text(s, v, f, skip, n);
    out.append(rest.as_str());
    proof {
        let a = ls.subrange(0, at as int);
        let b = ls.subrange(skip as int, n as int);
        assert(o1 =~= o0 + entry + seq!['\n']);
        lemma_unlines_push(Seq::<Seq<char>>::empty(), entry);
        assert(seq![entry] =~= Seq::<Seq<char>>::empty().push(entry));
        assert(unlines(Seq::<Seq<char>>::empty()) =~= Seq::<char>::empty());
        lemma_unlines_concat(a, seq![entry]);
        lemma_unlines_concat(a + seq![entry], b);
        assert(out@ =~= unlines(a + seq![entry] + b));
    }
    out
}

/// The characters `v[a..b]`.
fn slice_chars(v: &Vec<char>, a: usize, b: usize) -> (r: Vec<char>)
    requires
        a <= b <= v.len(),
    ensures
        r@ == v@.subrange(a as int, b as int),
{
    let mut r: Vec<char> = Vec::new();
    let mut i = a;
    while i < b
        invariant
            a <= i <= b <= v.len(),
            r@ == v@.subrange(a as int, i as int),
        decreases b - i,
    {
        r.push(v[i]);
        proof {
            assert(r@ =~= v@.subrange(a as int, i + 1));
        }
        i = i + 1;
    }
    r
}

/// Whether `v[a..b]` is a section header line.
fn is_header_range(v: &Vec<char>, a: usize, b: usize) -> (r: bool)
    requires
        a <= b <= v.len(),
    ensures
        r == is_section_header(v@.subrange(a as int, b as int)),
{
    let w = slice_chars(v, a, b);
    let (lo, hi) = trim_bounds(&w);
    proof {
        let t = trim(w@);
        if hi > lo {
            assert(t[0] == w@[lo as int]);
            assert(t.last() == w@[hi - 1]);
        }
    }
    hi > lo && w[lo] == '[' && w[hi - 1] == ']'
}

/// The first section header line of `v` at or after `from`.
fn first_header_from(v: &Vec<char>, f: &Vec<(usize, usize)>, from: usize) -> (r: Option<usize>)
    requires
        line_fields(v@, f@),
        from <= lines(v@).len(),
    ensures
        r matches Some(j) ==> from <= j < lines(v@).len() && first_header_line(lines(v@), from as int)
            == Some(j as int),
        r is None ==> first_header_line(lines(v@), from as int) is None,
{
    let ghost ls = lines(v@);
    let n = line_count(v, f);
    let mut k = from;
    while k < n
        invariant
            line_fields(v@, f@),
            ls == lines(v@),
            n == ls.len(),
            from <= k <= n,
            first_header_line(ls, from as int) == first_header_line(ls, k as int),
        decreases n - k,
    {
        let (a, b) = line_range(v, f, k);
        if is_header_range(v, a, b) {
            return Some(k);
        }
        k = k + 1;
    }
    None
}

proof fn lemma_join_push(fs: Seq<Seq<char>>, l: Seq<char>)
    requires
        fs.len() > 0,
    ensures
        join_lines(fs.push(l)) == join_lines(fs) + seq!['\n'] + l,
{
    assert(fs.push(l).drop_last() =~= fs);
}

/// Joining two non-empty runs of fields puts one line break between them.
pub proof fn lemma_join_concat(a: Seq<Seq<char>>, b: Seq<Seq<char>>)
    requires
        a.len() > 0,
        b.len() > 0,
    ensures
        join_lines(a + b) == join_lines(a) + seq!['\n'] + join_lines(b),
    decreases b.len(),
{
    if b.len() == 1 {
        assert(a + b =~= a.push(b[0]));
        lemma_join_push(a, b[0]);
    } else {
        lemma_join_concat(a, b.drop_last());
        assert(a + b =~= (a + b.drop_last()).push(b.last()));
        lemma_join_push(a + b.drop_last(), b.last());
        lemma_join_push(b.drop_last(), b.last());
        assert(b.drop_last().push(b.last()) =~= b);
        assert(join_lines(a + b) =~= join_lines(a) + seq!['\n'] + join_lines(b));
    }
}

/// Fields `from..to` of `s`, whose characters are `v`, joined by line breaks.
fn fields_text(s: &str, v: &Vec<char>, f: &Vec<(usize, usize)>, from: usize, to: usize) -> (r: String)
    requires
        v@ == s@,
        line_fields(v@, f@),
        from < to <= f.len(),
    ensures
        r@ == join_lines(split_fields(v@, '\n').subrange(from as int, to as int)),
{
    let ghost fs = split_fields(v@, '\n');
    let (a, b) = f[from];
    let mut out = String::from_str(s.substring_char(a, b));
    let mut j = from + 1;
    proof {
        assert(fs.subrange(from as int, j as int) =~= seq![fs[from as int]]);
    }
    while j < to
        invariant
            v@ == s@,
            line_fields(v@, f@),
            fs == split_fields(v@, '\n'),
            from < j <= to <= f.len(),
            out@ == join_lines(fs.subrange(from as int, j as int)),
        decreases to - j,
    {
        let (c, d) = f[j];
        let ghost before = out@;
        proof {
            reveal_strlit("\n");
        }
        out.append("\n");
        out.append(s.substring_char(c, d));
        proof {
            assert("\n"@ =~= seq!['\n']);
            assert(fs.subrange(from as int, j + 1) =~= fs.subrange(from as int, j as int).push(
                fs[j as int],
            ));
            lemma_join_push(fs.subrange(from as int, j as int), fs[j as int]);
            assert(out@ =~= before + seq!['\n'] + fs[j as int]);
        }
        j = j + 1;
    }
    out
}

/// Sets `key = value` under the `[config]` section of ini `text`, as [`set_ini_result`] states:
/// the section's `key = ...` line is replaced, else the setting goes right after the `[config]`
/// header, else a `[config]` section holding it is appended.
pub fn set_ini(text: &mut String, key: &str, value: &str)
    ensures
        final(text)@ == set_ini_result(old(text)@, key@, value@),
{
    let updated = with_setting(text.as_str(), key, value);
    *text = updated;
}

/// The text `s` after setting `key = value` (see [`set_ini_result`]).
pub fn with_setting(s: &str, key: &str, value: &str) -> (r: String)
    ensures
        r@ == set_ini_result(s@, key@, value@),
{
    let v = chars_of(s);
    let f = split_on(&v, '\n');
    let n = line_count(&v, &f);
    let ghost ls = lines(v@);
    let ghost entry = key@ + assign_sep() + value@;
    let name = chars_of("[config]");
    proof {
        reveal_strlit("[config]");
        assert(name@ =~= config_name());
    }
    match first_equal_line(&v, &f, &name) {
        Some(h) => {
            let e = match first_header_from(&v, &f, h + 1) {
                Some(j) => j,
                None => n,
            };
            proof {
                assert(e == section_end(ls, h + 1));
            }
            let mut p = chars_of(key);
            p.push(' ');
            p.push('=');
            p.push(' ');
            proof {
                assert(p@ =~= key@ + assign_sep());
            }
            let hit = first_prefixed_line(&v, &f, &p, h + 1, e);
            proof {
                assert(first_line_eq(ls, config_name(), 0) == Some(h as int));
                assert(config_key_line(ls, key@) == first_line_with(ls.take(e as int), p@, h + 1));
            }
            match hit {
                Some(k) => {
                    let out = splice(s, &v, &f, k, k + 1, key, value);
                    proof {
                        assert(config_key_line(ls, key@) == Some(k as int));
                        assert(ls.update(k as int, entry) =~= ls.subrange(0, k as int) + seq![entry]
                            + ls.subrange(k + 1, n as int));
                    }
                    out
                },
                None => {
                    proof {
                        assert(config_key_line(ls, key@) is None);
                        reveal_strlit("\n");
                        reveal_strlit(" = ");
                        assert("\n"@ =~= seq!['\n']);
                        assert(" = "@ =~= assign_sep());
                    }
                    let nf = f.len();
                    if h + 1 < nf {
                        let ghost fs = split_fields(v@, '\n');
                        let mut out = fields_text(s, &v, &f, 0, h + 1);
                        let ghost o0 = out@;
                        out.append("\n");
                        out.append(key);
                        out.append(" = ");
                        out.append(value);
                        let ghost o1 = out@;
                        out.append("\n");
                        let rest = fields_text(s, &v, &f, h + 1, nf);
                        out.append(rest.as_str());
                        proof {
                            let a = fs.subrange(0, h + 1);
                            let b = fs.subrange(h + 1, nf as int);
                            assert(o1 =~= o0 + seq!['\n'] + entry);
                            assert(fs.insert(h + 1, entry) =~= (a.push(entry)) + b);
                            lemma_join_push(a, entry);
                            lemma_join_concat(a.push(entry), b);
                            assert(out@ =~= join_lines(fs.insert(h + 1, entry)));
                        }
                        out
                    } else {
                        let mut out = String::from_str(s);
                        out.append("\n");
                        out.append(key);
                        out.append(" = ");
                        out.append(value);
                        out.append("\n");
                        out
                    }
                },
            }
        },
        None => {
            let mut out = String::from_str(s);
            if v.len() > 0 && v[v.len() - 1] != '\n' {
                out.append("\n");
            }
            proof {
                reveal_strlit("\n");
                reveal_strlit(" = ");
                reveal_strlit("[config]\n");
                assert(out@ == closed(s@));
            }
            out.append("[config]\n");
            out.append(key);
            out.append(" = ");
            out.append(value);
            out.append("\n");
            out
        },
    }
}
} // verus!
