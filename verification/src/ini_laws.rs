//! What setting a key in ini text guarantees: the lines it keeps, reading the key back, and
//! setting it a second time.
use vstd::prelude::*;
use crate::ini::{
    assign_sep, closed, config_header, config_key_line, config_name, first_header_line,
    first_line_eq, first_line_with, is_section_header, join_lines,
    lemma_unlines_concat, lemma_unlines_push, lines, section_end, set_ini_result, starts_with,
    strip_cr, unlines,
};
use crate::text::{is_ws, lemma_split_nonempty, split_fields, trim, trim_end, trim_start};

verus! {

/// Whether `s` holds no `c`.
pub open spec fn free_of(s: Seq<char>, c: char) -> bool {
    forall|i: int| 0 <= i < s.len() ==> s[i] != c
}

proof fn lemma_split_concat(a: Seq<char>, b: Seq<char>, sep: char)
    requires
        a.len() == 0 || a.last() == sep,
    ensures
        split_fields(a + b, sep) == split_fields(a, sep).drop_last() + split_fields(b, sep),
    decreases b.len(),
{
    lemma_split_nonempty(a, sep);
    if b.len() == 0 {
        assert(a + b =~= a);
        if a.len() > 0 {
            assert(a.drop_last() + Seq::<char>::empty() =~= a.drop_last());
        }
        assert(split_fields(a, sep).last() == Seq::<char>::empty());
        assert(split_fields(a, sep).drop_last() + split_fields(b, sep) =~= split_fields(a, sep));
    } else {
        let b0 = b.drop_last();
        lemma_split_concat(a, b0, sep);
        lemma_split_nonempty(b0, sep);
        assert((a + b).drop_last() =~= a + b0);
        assert((a + b).last() == b.last());
        let x = split_fields(a, sep).drop_last();
        let y = split_fields(b0, sep);
        if b.last() == sep {
            assert((x + y).push(Seq::<char>::empty()) =~= x + y.push(Seq::<char>::empty()));
        } else {
            let xy = x + y;
            assert(xy.update(xy.len() - 1, xy.last().push(b.last())) =~= x + y.update(
                y.len() - 1,
                y.last().push(b.last()),
            ));
        }
    }
}

proof fn lemma_split_plain(s: Seq<char>, sep: char)
    requires
        free_of(s, sep),
    ensures
        split_fields(s, sep) == seq![s],
    decreases s.len(),
{
    if s.len() > 0 {
        assert(free_of(s.drop_last(), sep)) by {
            assert forall|i: int| 0 <= i < s.drop_last().len() implies s.drop_last()[i] != sep by {
                assert(s.drop_last()[i] == s[i]);
            }
        }
        lemma_split_plain(s.drop_last(), sep);
        assert(s.last() != sep);
        assert(s.drop_last().push(s.last()) =~= s);
        assert(seq![s.drop_last()].update(0, s.drop_last().push(s.last())) =~= seq![s]);
    } else {
        assert(s =~= Seq::<char>::empty());
    }
}

proof fn lemma_split_fields_plain(s: Seq<char>, sep: char)
    ensures
        forall|k: int|
            0 <= k < split_fields(s, sep).len() ==> free_of(#[trigger] split_fields(s, sep)[k], sep),
    decreases s.len(),
{
    if s.len() > 0 {
        lemma_split_fields_plain(s.drop_last(), sep);
        lemma_split_nonempty(s.drop_last(), sep);
        let p = split_fields(s.drop_last(), sep);
        if s.last() != sep {
            assert forall|k: int| 0 <= k < split_fields(s, sep).len() implies free_of(
                #[trigger] split_fields(s, sep)[k],
                sep,
            ) by {
                if k == p.len() - 1 {
                    let l = p.last().push(s.last());
                    assert(free_of(p[k], sep));
                    assert forall|i: int| 0 <= i < l.len() implies l[i] != sep by {
                        if i < l.len() - 1 {
                            assert(l[i] == p[k][i]);
                        }
                    }
                }
            }
        } else {
            assert forall|k: int| 0 <= k < split_fields(s, sep).len() implies free_of(
                #[trigger] split_fields(s, sep)[k],
                sep,
            ) by {
                if k < p.len() {
                    assert(split_fields(s, sep)[k] == p[k]);
                }
            }
        }
    }
}

/// Lines hold no line break.
proof fn lemma_lines_plain(s: Seq<char>)
    ensures
        forall|k: int| 0 <= k < lines(s).len() ==> free_of(#[trigger] lines(s)[k], '\n'),
{
    lemma_split_fields_plain(s, '\n');
    lemma_split_nonempty(s, '\n');
    let f = split_fields(s, '\n');
    assert forall|k: int| 0 <= k < lines(s).len() implies free_of(#[trigger] lines(s)[k], '\n') by {
        assert(free_of(f[k], '\n'));
        let l = lines(s)[k];
        assert forall|i: int| 0 <= i < l.len() implies l[i] != '\n' by {
            assert(l[i] == f[k][i]);
        }
    }
}

proof fn lemma_lines_concat(a: Seq<char>, b: Seq<char>)
    requires
        a.len() == 0 || a.last() == '\n',
    ensures
        lines(a + b) == lines(a) + lines(b),
{
    lemma_split_concat(a, b, '\n');
    lemma_split_nonempty(a, '\n');
    lemma_split_nonempty(b, '\n');
    let fa = split_fields(a, '\n');
    let fb = split_fields(b, '\n');
    let f = split_fields(a + b, '\n');
    if a.len() > 0 {
        assert(a.drop_last() + Seq::<char>::empty() =~= a.drop_last());
    }
    assert(fa.last() == Seq::<char>::empty());
    let na = fa.len() - 1;
    assert(f.last() == fb.last());
    assert(lines(a).len() == na);
    assert forall|k: int| 0 <= k < lines(a + b).len() implies #[trigger] lines(a + b)[k] == (lines(a)
        + lines(b))[k] by {
        if k < na {
            assert(f[k] == fa[k]);
        } else {
            assert(f[k] == fb[k - na]);
        }
    }
    assert(lines(a + b) =~= lines(a) + lines(b));
}

proof fn lemma_lines_of_line(l: Seq<char>)
    requires
        free_of(l, '\n'),
    ensures
        lines(l.push('\n')) == seq![strip_cr(l)],
        lines(l) == (if l.len() == 0 {
            Seq::<Seq<char>>::empty()
        } else {
            seq![l]
        }),
{
    lemma_split_plain(l, '\n');
    assert(l.push('\n').drop_last() =~= l);
    assert(split_fields(l.push('\n'), '\n') =~= seq![l, Seq::<char>::empty()]);
    assert(lines(l.push('\n')) =~= seq![strip_cr(l)]);
    if l.len() == 0 {
        assert(lines(l) =~= Seq::<Seq<char>>::empty());
    } else {
        assert(lines(l) =~= seq![l]);
    }
}

proof fn lemma_unlines_lines(m: Seq<Seq<char>>)
    requires
        forall|k: int| 0 <= k < m.len() ==> free_of(#[trigger] m[k], '\n'),
    ensures
        lines(unlines(m)) == m.map_values(|l: Seq<char>| strip_cr(l)),
    decreases m.len(),
{
    if m.len() == 0 {
        lemma_split_plain(Seq::<char>::empty(), '\n');
        assert(lines(unlines(m)) =~= m.map_values(|l: Seq<char>| strip_cr(l)));
    } else {
        let a = unlines(m.drop_last());
        lemma_unlines_lines(m.drop_last());
        let l = m.last();
        assert(free_of(m[m.len() - 1], '\n'));
        lemma_lines_of_line(l);
        assert(a.len() == 0 || a.last() == '\n') by {
            if m.drop_last().len() > 0 {
                assert(a == unlines(m.drop_last().drop_last()) + m.drop_last().last() + seq!['\n']);
            }
        }
        assert(unlines(m) =~= a + l.push('\n'));
        lemma_lines_concat(a, l.push('\n'));
        assert(lines(unlines(m)) =~= m.map_values(|l: Seq<char>| strip_cr(l)));
    }
}

proof fn lemma_trim_start_plain(s: Seq<char>)
    requires
        s.len() > 0,
        !is_ws(s[0]),
    ensures
        trim_start(s) == s,
{
}

proof fn lemma_first_none(ls: Seq<Seq<char>>, p: Seq<char>, from: int)
    requires
        0 <= from,
    ensures
        first_line_with(ls, p, from) is None <==> forall|j: int|
            from <= j < ls.len() ==> !starts_with(trim_start(#[trigger] ls[j]), p),
    decreases ls.len() - from,
{
    if from < ls.len() {
        lemma_first_none(ls, p, from + 1);
    }
}

proof fn lemma_first_at(ls: Seq<Seq<char>>, p: Seq<char>, from: int, k: int)
    requires
        0 <= from <= k < ls.len(),
        forall|j: int| from <= j < k ==> !starts_with(trim_start(#[trigger] ls[j]), p),
        starts_with(trim_start(ls[k]), p),
    ensures
        first_line_with(ls, p, from) == Some(k),
    decreases k - from,
{
    if from < k {
        lemma_first_at(ls, p, from + 1, k);
    }
}

/// The facts about a setting's line that reading it back rests on.
pub open spec fn entry_ok(key: Seq<char>, value: Seq<char>) -> bool {
    let p = key + assign_sep();
    let entry = key + assign_sep() + value;
    &&& free_of(entry, '\n')
    &&& starts_with(trim_start(entry), p)
    &&& trim_start(entry).skip(p.len() as int) == value
    &&& strip_cr(entry) == entry
    &&& p.len() > 0
    &&& p.last() == ' '
}

proof fn lemma_entry(key: Seq<char>, value: Seq<char>)
    requires
        key.len() > 0,
        !is_ws(key[0]),
        free_of(key, '\n'),
        free_of(value, '\n'),
        value.len() > 0 ==> value.last() != '\r',
    ensures
        entry_ok(key, value),
{
    let p = key + assign_sep();
    let entry = key + assign_sep() + value;
    assert forall|i: int| 0 <= i < entry.len() implies entry[i] != '\n' by {
        if i < key.len() {
            assert(entry[i] == key[i]);
        } else if i >= key.len() + 3 {
            assert(entry[i] == value[i - key.len() - 3]);
        }
    }
    assert(entry[0] == key[0]);
    lemma_trim_start_plain(entry);
    assert(entry.take(p.len() as int) =~= p);
    assert(entry.skip(p.len() as int) =~= value);
    if value.len() == 0 {
        assert(entry.last() == ' ');
    } else {
        assert(entry.last() == value.last());
    }
}

proof fn lemma_first_k_from(ls: Seq<Seq<char>>, p: Seq<char>, from: int, k: int)
    requires
        0 <= from,
        first_line_with(ls, p, from) == Some(k),
    ensures
        from <= k < ls.len(),
        starts_with(trim_start(ls[k]), p),
        forall|j: int| from <= j < k ==> !starts_with(trim_start(#[trigger] ls[j]), p),
    decreases ls.len() - from,
{
    if from < ls.len() && !starts_with(trim_start(ls[from]), p) {
        lemma_first_k_from(ls, p, from + 1, k);
    }
}

proof fn lemma_eq_k(ls: Seq<Seq<char>>, l: Seq<char>, from: int, k: int)
    requires
        0 <= from,
        first_line_eq(ls, l, from) == Some(k),
    ensures
        from <= k < ls.len(),
        ls[k] == l,
        forall|j: int| from <= j < k ==> #[trigger] ls[j] != l,
    decreases ls.len() - from,
{
    if from < ls.len() && ls[from] != l {
        lemma_eq_k(ls, l, from + 1, k);
    }
}

proof fn lemma_eq_at(ls: Seq<Seq<char>>, l: Seq<char>, from: int, k: int)
    requires
        0 <= from <= k < ls.len(),
        ls[k] == l,
        forall|j: int| from <= j < k ==> #[trigger] ls[j] != l,
    ensures
        first_line_eq(ls, l, from) == Some(k),
    decreases k - from,
{
    if from < k {
        lemma_eq_at(ls, l, from + 1, k);
    }
}

proof fn lemma_eq_none(ls: Seq<Seq<char>>, l: Seq<char>, from: int)
    requires
        0 <= from,
        first_line_eq(ls, l, from) is None,
    ensures
        forall|j: int| from <= j < ls.len() ==> #[trigger] ls[j] != l,
    decreases ls.len() - from,
{
    if from < ls.len() {
        lemma_eq_none(ls, l, from + 1);
    }
}

proof fn lemma_hdr_k(ls: Seq<Seq<char>>, from: int, k: int)
    requires
        0 <= from,
        first_header_line(ls, from) == Some(k),
    ensures
        from <= k < ls.len(),
        is_section_header(ls[k]),
        forall|j: int| from <= j < k ==> !is_section_header(#[trigger] ls[j]),
    decreases ls.len() - from,
{
    if from < ls.len() && !is_section_header(ls[from]) {
        lemma_hdr_k(ls, from + 1, k);
    }
}

proof fn lemma_hdr_at(ls: Seq<Seq<char>>, from: int, k: int)
    requires
        0 <= from <= k < ls.len(),
        is_section_header(ls[k]),
        forall|j: int| from <= j < k ==> !is_section_header(#[trigger] ls[j]),
    ensures
        first_header_line(ls, from) == Some(k),
    decreases k - from,
{
    if from < k {
        lemma_hdr_at(ls, from + 1, k);
    }
}

proof fn lemma_hdr_none(ls: Seq<Seq<char>>, from: int)
    requires
        0 <= from,
    ensures
        first_header_line(ls, from) is None <==> forall|j: int|
            from <= j < ls.len() ==> !is_section_header(#[trigger] ls[j]),
    decreases ls.len() - from,
{
    if from < ls.len() {
        lemma_hdr_none(ls, from + 1);
    }
}

proof fn lemma_section_bounds(ls: Seq<Seq<char>>, from: int)
    requires
        0 <= from,
    ensures
        from <= section_end(ls, from) <= ls.len() || (from > ls.len() && section_end(ls, from)
            == ls.len()),
{
    match first_header_line(ls, from) {
        Some(j) => lemma_hdr_k(ls, from, j),
        None => {},
    }
}

/// A section goes on past a line that is no header.
proof fn lemma_section_past(ls: Seq<Seq<char>>, from: int)
    requires
        0 <= from < ls.len(),
        !is_section_header(ls[from]),
    ensures
        from < section_end(ls, from) <= ls.len(),
{
    assert(first_header_line(ls, from) == first_header_line(ls, from + 1));
    lemma_section_bounds(ls, from + 1);
}

/// Whether no line of `text` keeps a carriage return at its end (as a `\r\r\n` break or a
/// final `\r` leaves one).
pub open spec fn settled(text: Seq<char>) -> bool {
    forall|j: int|
        0 <= j < lines(text).len() ==> strip_cr(#[trigger] lines(text)[j]) == lines(text)[j]
}

/// A key that does not start with a blank, and a key and a value without line breaks, the
/// value not ending in a carriage return, whose setting line does not read as a section header.
pub open spec fn plain_setting(key: Seq<char>, value: Seq<char>) -> bool {
    &&& key.len() > 0
    &&& !is_ws(key[0])
    &&& free_of(key, '\n')
    &&& free_of(value, '\n')
    &&& value.len() > 0 ==> value.last() != '\r'
    &&& !is_section_header(key + assign_sep() + value)
}

/// Whether setting a key that the `[config]` section lacks puts it at the end of `text`: the
/// text has no `[config]` header line, or that line ends the text without a line break.
pub open spec fn setting_goes_last(text: Seq<char>) -> bool {
    match first_line_eq(lines(text), config_name(), 0) {
        Some(h) => h + 1 >= split_fields(text, '\n').len(),
        None => true,
    }
}

/// The value of `key` in the `[config]` section of ini `text`, as a reader that matches lines
/// as the setter does sees it: the rest of the section's first line whose unindented start is
/// `key = `.
pub open spec fn config_value(text: Seq<char>, key: Seq<char>) -> Option<Seq<char>> {
    let ls = lines(text);
    match config_key_line(ls, key) {
        Some(j) => Some(trim_start(ls[j]).skip((key + assign_sep()).len() as int)),
        None => None,
    }
}

proof fn lemma_entry_plain(key: Seq<char>, value: Seq<char>)
    requires
        plain_setting(key, value),
    ensures
        entry_ok(key, value),
        !is_section_header(key + assign_sep() + value),
        key + assign_sep() + value != config_name(),
{
    lemma_entry(key, value);
    let c = config_name();
    assert(!is_ws(c[0]));
    assert(!is_ws(c.last()));
    assert(trim_start(c) == c);
    assert(trim_end(c) == c);
    assert(trim(c) == c);
    assert(is_section_header(c));
}

proof fn lemma_entry_free(key: Seq<char>, value: Seq<char>)
    requires
        free_of(key, '\n'),
        free_of(value, '\n'),
    ensures
        free_of(key + assign_sep() + value, '\n'),
{
    let entry = key + assign_sep() + value;
    assert forall|i: int| 0 <= i < entry.len() implies entry[i] != '\n' by {
        if i < key.len() {
            assert(entry[i] == key[i]);
        } else if i >= key.len() + 3 {
            assert(entry[i] == value[i - key.len() - 3]);
        }
    }
}

/// Closing a text with a line break keeps its lines when its last line keeps no carriage
/// return at its end.
proof fn lemma_closed_lines(text: Seq<char>)
    requires
        lines(text).len() > 0 ==> strip_cr(lines(text).last()) == lines(text).last(),
    ensures
        lines(closed(text)) == lines(text),
{
    if text.len() > 0 && text.last() != '\n' {
        let c = text.push('\n');
        assert(c.drop_last() =~= text);
        let f = split_fields(text, '\n');
        lemma_split_nonempty(text.drop_last(), '\n');
        lemma_split_nonempty(text, '\n');
        assert(f.last().len() > 0);
        let g = split_fields(c, '\n');
        assert(g == f.push(Seq::<char>::empty()));
        let ls = lines(text);
        assert(ls.len() == f.len());
        assert forall|k: int| 0 <= k < ls.len() implies #[trigger] lines(c)[k] == ls[k] by {
            assert(g[k] == f[k]);
            if k == f.len() - 1 {
                assert(strip_cr(ls[k]) == ls[k]);
            }
        }
        assert(lines(c) =~= ls);
    }
}

/// Cutting fields joined by line breaks gives the fields back.
proof fn lemma_split_join(g: Seq<Seq<char>>)
    requires
        g.len() > 0,
        forall|k: int| 0 <= k < g.len() ==> free_of(#[trigger] g[k], '\n'),
    ensures
        split_fields(join_lines(g), '\n') == g,
    decreases g.len(),
{
    if g.len() == 1 {
        assert(free_of(g[0], '\n'));
        lemma_split_plain(g[0], '\n');
        assert(seq![g[0]] =~= g);
    } else {
        let p = g.drop_last();
        assert forall|k: int| 0 <= k < p.len() implies free_of(#[trigger] p[k], '\n') by {
            assert(p[k] == g[k]);
        }
        lemma_split_join(p);
        let a = join_lines(p).push('\n');
        assert(join_lines(g) =~= a + g.last());
        assert(a.drop_last() =~= join_lines(p));
        lemma_split_concat(a, g.last(), '\n');
        assert(free_of(g[g.len() - 1], '\n'));
        lemma_split_plain(g.last(), '\n');
        assert(split_fields(a, '\n') == p.push(Seq::<char>::empty()));
        assert(p.push(Seq::<char>::empty()).drop_last() =~= p);
        assert(p + seq![g.last()] =~= g);
    }
}

/// Lines written with a line break each are cut into those lines and a final empty field.
proof fn lemma_split_unlines(m: Seq<Seq<char>>)
    requires
        forall|k: int| 0 <= k < m.len() ==> free_of(#[trigger] m[k], '\n'),
    ensures
        split_fields(unlines(m), '\n') == m.push(Seq::<char>::empty()),
    decreases m.len(),
{
    if m.len() == 0 {
        assert(unlines(m) =~= Seq::<char>::empty());
        assert(m.push(Seq::<char>::empty()) =~= seq![Seq::<char>::empty()]);
    } else {
        let p = m.drop_last();
        assert forall|k: int| 0 <= k < p.len() implies free_of(#[trigger] p[k], '\n') by {
            assert(p[k] == m[k]);
        }
        lemma_split_unlines(p);
        let a = unlines(p);
        let l = m.last();
        let b = l.push('\n');
        assert(unlines(m) =~= a + b);
        assert(a.len() == 0 || a.last() == '\n') by {
            if p.len() > 0 {
                assert(a == unlines(p.drop_last()) + p.last() + seq!['\n']);
            }
        }
        lemma_split_concat(a, b, '\n');
        assert(free_of(m[m.len() - 1], '\n'));
        lemma_split_plain(l, '\n');
        assert(b.drop_last() =~= l);
        assert(split_fields(b, '\n') == seq![l].push(Seq::<char>::empty()));
        assert(p.push(Seq::<char>::empty()).drop_last() =~= p);
        assert(p + seq![l].push(Seq::<char>::empty()) =~= m.push(Seq::<char>::empty()));
    }
}

/// Non-empty lines written with a line break each are the lines joined, and one more break.
proof fn lemma_unlines_join(m: Seq<Seq<char>>)
    requires
        m.len() > 0,
    ensures
        unlines(m) == join_lines(m).push('\n'),
    decreases m.len(),
{
    if m.len() == 1 {
        assert(m.drop_last() =~= Seq::<Seq<char>>::empty());
        assert(unlines(m.drop_last()) =~= Seq::<char>::empty());
        assert(unlines(m) =~= join_lines(m).push('\n'));
    } else {
        lemma_unlines_join(m.drop_last());
        assert(unlines(m) =~= join_lines(m).push('\n'));
    }
}

/// Putting a line right after line `h` that a line break ends keeps every other line as it is.
proof fn lemma_lines_insert(text: Seq<char>, h: int, e: Seq<char>)
    requires
        0 <= h,
        h + 1 < split_fields(text, '\n').len(),
        free_of(e, '\n'),
    ensures
        lines(join_lines(split_fields(text, '\n').insert(h + 1, e))) == lines(text).insert(
            h + 1,
            strip_cr(e),
        ),
{
    let f = split_fields(text, '\n');
    let g = f.insert(h + 1, e);
    lemma_split_fields_plain(text, '\n');
    assert forall|k: int| 0 <= k < g.len() implies free_of(#[trigger] g[k], '\n') by {
        if k < h + 1 {
            assert(g[k] == f[k]);
        } else if k > h + 1 {
            assert(g[k] == f[k - 1]);
        }
    }
    lemma_split_join(g);
    let r = join_lines(g);
    assert(g.last() == f.last());
    let ls = lines(text);
    let lr = lines(r);
    let want = ls.insert(h + 1, strip_cr(e));
    assert(lr.len() == want.len());
    assert forall|k: int| 0 <= k < lr.len() implies #[trigger] lr[k] == want[k] by {
        if k < h + 1 {
            assert(g[k] == f[k]);
        } else if k > h + 1 {
            assert(g[k] == f[k - 1]);
        }
    }
    assert(lr =~= want);
}

/// Setting a key keeps the other lines. Where the text has a `[config]` header line and the
/// section carries the key, the lines afterwards are the old ones (each losing at most a
/// carriage return at its end) with that line replaced by the setting; where the section
/// lacks it, they are the old lines with the setting right after the header. Where the text
/// has no header line, the old lines are followed by a `[config]` header line and the setting.
pub proof fn set_ini_keeps_other_lines(text: Seq<char>, key: Seq<char>, value: Seq<char>)
    requires
        free_of(key, '\n'),
        free_of(value, '\n'),
    ensures
        ({
            let r = set_ini_result(text, key, value);
            let ls = lines(text);
            let entry = key + assign_sep() + value;
            match first_line_eq(ls, config_name(), 0) {
                Some(h) => match config_key_line(ls, key) {
                    Some(k) => lines(r) == ls.update(k, entry).map_values(|l: Seq<char>| strip_cr(l)),
                    None => lines(r) == ls.insert(h + 1, strip_cr(entry)),
                },
                None => lines(r) == lines(closed(text)) + seq![config_name(), strip_cr(entry)],
            }
        }),
{
    let p = key + assign_sep();
    let entry = key + assign_sep() + value;
    let ls = lines(text);
    let r = set_ini_result(text, key, value);
    lemma_lines_plain(text);
    lemma_entry_free(key, value);
    match first_line_eq(ls, config_name(), 0) {
        Some(h) => {
            lemma_eq_k(ls, config_name(), 0, h);
            lemma_section_bounds(ls, h + 1);
            let e = section_end(ls, h + 1);
            match config_key_line(ls, key) {
                Some(k) => {
                    lemma_first_k_from(ls.take(e), p, h + 1, k);
                    let m = ls.update(k, entry);
                    assert forall|j: int| 0 <= j < m.len() implies free_of(#[trigger] m[j], '\n') by {
                        if j != k {
                            assert(m[j] == ls[j]);
                        }
                    }
                    lemma_unlines_lines(m);
                },
                None => {
                    let f = split_fields(text, '\n');
                    if h + 1 < f.len() {
                        lemma_lines_insert(text, h, entry);
                    } else {
                        lemma_split_nonempty(text, '\n');
                        assert(ls.len() == f.len());
                        assert(f.last().len() > 0);
                        if text.len() == 0 {
                            assert(f =~= seq![Seq::<char>::empty()]);
                        }
                        assert(text.len() > 0 && text.last() != '\n');
                        assert(ls.last() == config_name());
                        assert(strip_cr(config_name()) == config_name());
                        lemma_closed_lines(text);
                        let c = closed(text);
                        let en = entry.push('\n');
                        assert(r =~= c + en);
                        assert(c.last() == '\n');
                        lemma_lines_concat(c, en);
                        lemma_lines_of_line(entry);
                        assert(lines(r) =~= ls.insert(h + 1, strip_cr(entry)));
                    }
                },
            }
        },
        None => {
            let c = closed(text);
            let cn = config_name().push('\n');
            let en = entry.push('\n');
            assert(config_header() =~= cn);
            assert(r =~= c + (cn + en));
            lemma_lines_concat(c, cn + en);
            assert(free_of(config_name(), '\n')) by {
                assert forall|i: int| 0 <= i < config_name().len() implies config_name()[i]
                    != '\n' by {}
            }
            lemma_lines_of_line(config_name());
            lemma_lines_of_line(entry);
            assert(cn.last() == '\n');
            lemma_lines_concat(cn, en);
            assert(strip_cr(config_name()) == config_name());
            assert(lines(r) =~= lines(c) + seq![config_name(), strip_cr(entry)]);
        },
    }
}

/// For settled text and a plain setting: what the text's lines are after setting the key, and
/// the section line that carries it then.
proof fn lemma_set_key_line(text: Seq<char>, key: Seq<char>, value: Seq<char>) -> (kk: int)
    requires
        plain_setting(key, value),
        settled(text),
    ensures
        ({
            let r = set_ini_result(text, key, value);
            let ls = lines(text);
            let entry = key + assign_sep() + value;
            &&& 0 <= kk < lines(r).len()
            &&& lines(r)[kk] == entry
            &&& config_key_line(lines(r), key) == Some(kk)
            &&& match first_line_eq(ls, config_name(), 0) {
                Some(h) => match config_key_line(ls, key) {
                    Some(k) => lines(r) == ls.update(k, entry),
                    None => lines(r) == ls.insert(h + 1, entry),
                },
                None => lines(r) == ls + seq![config_name(), entry],
            }
        }),
{
    let p = key + assign_sep();
    let cfg = config_name();
    let entry = key + assign_sep() + value;
    let ls = lines(text);
    let r = set_ini_result(text, key, value);
    lemma_entry_plain(key, value);
    set_ini_keeps_other_lines(text, key, value);
    let sc = |l: Seq<char>| strip_cr(l);
    match first_line_eq(ls, cfg, 0) {
        Some(h) => {
            lemma_eq_k(ls, cfg, 0, h);
            lemma_section_bounds(ls, h + 1);
            let e = section_end(ls, h + 1);
            match config_key_line(ls, key) {
                Some(k) => {
                    lemma_first_k_from(ls.take(e), p, h + 1, k);
                    let m = ls.update(k, entry);
                    assert(m.map_values(sc) =~= m) by {
                        assert forall|j: int| 0 <= j < m.len() implies #[trigger] m.map_values(
                            sc,
                        )[j] == m[j] by {
                            if j != k {
                                assert(strip_cr(ls[j]) == ls[j]);
                            }
                        }
                    }
                    let l = lines(r);
                    assert(l == m);
                    assert forall|j: int| 0 <= j < h implies #[trigger] l[j] != cfg by {
                        assert(l[j] == ls[j]);
                    }
                    lemma_eq_at(l, cfg, 0, h);
                    match first_header_line(ls, h + 1) {
                        Some(e0) => {
                            lemma_hdr_k(ls, h + 1, e0);
                            assert forall|j: int| h + 1 <= j < e0 implies !is_section_header(
                                #[trigger] l[j],
                            ) by {
                                if j != k {
                                    assert(l[j] == ls[j]);
                                }
                            }
                            assert(e == e0);
                            assert(l[e0] == ls[e0]);
                            lemma_hdr_at(l, h + 1, e0);
                        },
                        None => {
                            lemma_hdr_none(ls, h + 1);
                            assert forall|j: int| h + 1 <= j < l.len() implies !is_section_header(
                                #[trigger] l[j],
                            ) by {
                                if j != k {
                                    assert(l[j] == ls[j]);
                                }
                            }
                            lemma_hdr_none(l, h + 1);
                        },
                    }
                    assert(section_end(l, h + 1) == e);
                    let lt = l.take(e);
                    let st = ls.take(e);
                    assert forall|j: int| h + 1 <= j < k implies !starts_with(
                        trim_start(#[trigger] lt[j]),
                        p,
                    ) by {
                        assert(lt[j] == st[j]);
                    }
                    assert(lt[k] == entry);
                    lemma_first_at(lt, p, h + 1, k);
                    k
                },
                None => {
                    let l = lines(r);
                    assert(l == ls.insert(h + 1, entry));
                    assert forall|j: int| 0 <= j < h implies #[trigger] l[j] != cfg by {
                        assert(l[j] == ls[j]);
                    }
                    assert(l[h] == ls[h]);
                    lemma_eq_at(l, cfg, 0, h);
                    assert(l[h + 1] == entry);
                    lemma_section_past(l, h + 1);
                    let el = section_end(l, h + 1);
                    lemma_first_at(l.take(el), p, h + 1, h + 1);
                    h + 1
                },
            }
        },
        None => {
            lemma_eq_none(ls, cfg, 0);
            lemma_closed_lines(text);
            let l = lines(r);
            let n = ls.len() as int;
            assert(l == ls + seq![cfg, entry]);
            assert forall|j: int| 0 <= j < n implies #[trigger] l[j] != cfg by {
                assert(l[j] == ls[j]);
            }
            lemma_eq_at(l, cfg, 0, n);
            lemma_section_past(l, n + 1);
            let el = section_end(l, n + 1);
            assert(el == n + 2);
            lemma_first_at(l.take(el), p, n + 1, n + 1);
            n + 1
        },
    }
}

/// Reading a key back from the `[config]` section after setting it gives the value set, for a
/// plain setting (see [`plain_setting`]) and text none of whose lines keeps a carriage return
/// at its end.
pub proof fn set_ini_then_read(text: Seq<char>, key: Seq<char>, value: Seq<char>)
    requires
        plain_setting(key, value),
        settled(text),
    ensures
        config_value(set_ini_result(text, key, value), key) == Some(value),
{
    lemma_entry_plain(key, value);
    let kk = lemma_set_key_line(text, key, value);
}

/// Setting a key a second time to the same value changes nothing, for a plain setting (see
/// [`plain_setting`]) and text none of whose lines keeps a carriage return at its end that,
/// where the section lacks the key, is already written line by line, up to a final line break
/// when the setting goes at the end (see [`setting_goes_last`]).
pub proof fn set_ini_twice(text: Seq<char>, key: Seq<char>, value: Seq<char>)
    requires
        plain_setting(key, value),
        settled(text),
        config_key_line(lines(text), key) is None ==> unlines(lines(text)) == (if setting_goes_last(
            text,
        ) {
            closed(text)
        } else {
            text
        }),
    ensures
        set_ini_result(set_ini_result(text, key, value), key, value) == set_ini_result(
            text,
            key,
            value,
        ),
{
    let entry = key + assign_sep() + value;
    let r = set_ini_result(text, key, value);
    let ls = lines(text);
    let f = split_fields(text, '\n');
    let kk = lemma_set_key_line(text, key, value);
    let l = lines(r);
    assert(first_line_eq(l, config_name(), 0) is Some);
    assert(l.update(kk, entry) =~= l);
    lemma_lines_plain(text);
    lemma_entry_free(key, value);
    match first_line_eq(ls, config_name(), 0) {
        Some(h) => {
            lemma_eq_k(ls, config_name(), 0, h);
            match config_key_line(ls, key) {
                Some(k) => {},
                None => {
                    let m = ls.insert(h + 1, entry);
                    if h + 1 < f.len() {
                        lemma_split_unlines(ls);
                        assert(f == ls.push(Seq::<char>::empty()));
                        assert(f.insert(h + 1, entry) =~= m.push(Seq::<char>::empty()));
                        lemma_join_push(m, Seq::<char>::empty());
                        lemma_unlines_join(m);
                        assert(join_lines(m.push(Seq::<char>::empty())) =~= join_lines(m).push('\n'));
                    } else {
                        lemma_split_nonempty(text, '\n');
                        assert(ls.len() == f.len());
                        if text.len() == 0 {
                            assert(f =~= seq![Seq::<char>::empty()]);
                        }
                        assert(text.len() > 0 && text.last() != '\n');
                        assert(m =~= ls.push(entry));
                        lemma_unlines_push(ls, entry);
                        assert(unlines(l) =~= r);
                    }
                },
            }
        },
        None => {
            let e = Seq::<Seq<char>>::empty();
            lemma_unlines_push(e, config_name());
            lemma_unlines_push(e.push(config_name()), entry);
            assert(e.push(config_name()).push(entry) =~= seq![config_name(), entry]);
            assert(unlines(e) =~= Seq::<char>::empty());
            lemma_unlines_concat(ls, seq![config_name(), entry]);
            assert(unlines(l) =~= r);
        },
    }
}

/// A key that starts with a non-blank character and a non-empty value that ends with one other
/// than `]`, neither holding a line break, make a plain setting (see [`plain_setting`]).
pub proof fn lemma_plain_setting(key: Seq<char>, value: Seq<char>)
    requires
        key.len() > 0,
        value.len() > 0,
        !is_ws(key[0]),
        !is_ws(value.last()),
        value.last() != ']',
        free_of(key, '\n'),
        free_of(value, '\n'),
    ensures
        plain_setting(key, value),
{
    let entry = key + assign_sep() + value;
    assert(entry[0] == key[0]);
    lemma_trim_start_plain(entry);
    assert(entry.last() == value.last());
    assert(trim_end(entry) == entry);
    assert(trim(entry) == entry);
    assert(is_ws('\r'));
}

/// How many lines of `ls` are `[config]` header lines.
pub open spec fn config_headers(ls: Seq<Seq<char>>) -> nat
    decreases ls.len(),
{
    if ls.len() == 0 {
        0
    } else {
        config_headers(ls.drop_last()) + if ls.last() == config_name() {
            1nat
        } else {
            0nat
        }
    }
}

proof fn lemma_headers_update(ls: Seq<Seq<char>>, k: int, x: Seq<char>)
    requires
        0 <= k < ls.len(),
        ls[k] != config_name(),
        x != config_name(),
    ensures
        config_headers(ls.update(k, x)) == config_headers(ls),
    decreases ls.len(),
{
    let u = ls.update(k, x);
    if k < ls.len() - 1 {
        assert(u.drop_last() =~= ls.drop_last().update(k, x));
        lemma_headers_update(ls.drop_last(), k, x);
    } else {
        assert(u.drop_last() =~= ls.drop_last());
    }
}

proof fn lemma_headers_insert(ls: Seq<Seq<char>>, i: int, x: Seq<char>)
    requires
        0 <= i <= ls.len(),
        x != config_name(),
    ensures
        config_headers(ls.insert(i, x)) == config_headers(ls),
    decreases ls.len(),
{
    let u = ls.insert(i, x);
    if i < ls.len() {
        assert(u.drop_last() =~= ls.drop_last().insert(i, x));
        assert(u.last() == ls.last());
        lemma_headers_insert(ls.drop_last(), i, x);
    } else {
        assert(u.drop_last() =~= ls);
    }
}

/// Whether two keys differ at some place both have, so that no line starts with the setting
/// prefix of both.
pub open spec fn keys_apart(a: Seq<char>, b: Seq<char>) -> bool {
    exists|i: int| 0 <= i < a.len() && i < b.len() && a[i] != b[i]
}

proof fn lemma_apart(t: Seq<char>, a: Seq<char>, b: Seq<char>)
    requires
        keys_apart(a, b),
    ensures
        !(starts_with(t, a + assign_sep()) && starts_with(t, b + assign_sep())),
{
    let i = choose|i: int| 0 <= i < a.len() && i < b.len() && a[i] != b[i];
    if starts_with(t, a + assign_sep()) && starts_with(t, b + assign_sep()) {
        assert(t.take((a + assign_sep()).len() as int)[i] == (a + assign_sep())[i]);
        assert(t.take((b + assign_sep()).len() as int)[i] == (b + assign_sep())[i]);
    }
}

/// A key line is no `[config]` header line.
proof fn lemma_key_line_no_header(l: Seq<char>, key: Seq<char>)
    requires
        starts_with(trim_start(l), key + assign_sep()),
    ensures
        l != config_name(),
{
    let c = config_name();
    if l == c {
        assert(!is_ws(c[0]));
        assert(trim_start(c) == c);
        let p = key + assign_sep();
        assert(p[key.len() as int] == ' ');
        assert(c.take(p.len() as int)[key.len() as int] == ' ');
    }
}

proof fn lemma_with_same(a: Seq<Seq<char>>, b: Seq<Seq<char>>, p: Seq<char>, from: int)
    requires
        0 <= from,
        a.len() == b.len(),
        forall|j: int|
            from <= j < a.len() ==> starts_with(trim_start(#[trigger] a[j]), p) == starts_with(
                trim_start(b[j]),
                p,
            ),
    ensures
        first_line_with(a, p, from) == first_line_with(b, p, from),
    decreases a.len() - from,
{
    if from < a.len() {
        lemma_with_same(a, b, p, from + 1);
    }
}

proof fn lemma_with_shift(a: Seq<Seq<char>>, b: Seq<Seq<char>>, p: Seq<char>, from: int)
    requires
        0 <= from,
        b.len() == a.len() + 1,
        forall|j: int| from <= j < a.len() ==> b[j + 1] == #[trigger] a[j],
    ensures
        first_line_with(b, p, from + 1) == match first_line_with(a, p, from) {
            Some(j) => Some(j + 1),
            None => None,
        },
    decreases a.len() - from,
{
    if from < a.len() {
        assert(b[from + 1] == a[from]);
        lemma_with_shift(a, b, p, from + 1);
    }
}

proof fn lemma_hdr_shift(a: Seq<Seq<char>>, b: Seq<Seq<char>>, from: int)
    requires
        0 <= from,
        b.len() == a.len() + 1,
        forall|j: int| from <= j < a.len() ==> b[j + 1] == #[trigger] a[j],
    ensures
        first_header_line(b, from + 1) == match first_header_line(a, from) {
            Some(j) => Some(j + 1),
            None => None,
        },
    decreases a.len() - from,
{
    if from < a.len() {
        assert(b[from + 1] == a[from]);
        lemma_hdr_shift(a, b, from + 1);
    }
}

/// Setting a key where the text has a `[config]` header line adds no header and leaves the
/// other settings alone: the lines up to the first header line, and that line, stay as they
/// are; it stays the first header line; the text holds as many `[config]` header lines as
/// before; no line comes to keep a carriage return at its end; and every key whose setting
/// prefix cannot be mistaken for this key's keeps its value in the section (or its absence).
/// Stated for a plain setting (see [`plain_setting`]) and text none of whose lines keeps a
/// carriage return at its end.
pub proof fn set_ini_keeps_the_section(
    text: Seq<char>,
    key: Seq<char>,
    value: Seq<char>,
    other: Seq<char>,
)
    requires
        plain_setting(key, value),
        settled(text),
        first_line_eq(lines(text), config_name(), 0) is Some,
        keys_apart(key, other),
    ensures
        ({
            let r = set_ini_result(text, key, value);
            let ls = lines(text);
            let h = first_line_eq(ls, config_name(), 0).unwrap();
            &&& settled(r)
            &&& first_line_eq(lines(r), config_name(), 0) == Some(h)
            &&& lines(r).take(h + 1) == ls.take(h + 1)
            &&& config_headers(lines(r)) == config_headers(ls)
            &&& config_value(r, other) == config_value(text, other)
        }),
{
    let cfg = config_name();
    let p = key + assign_sep();
    let po = other + assign_sep();
    let entry = key + assign_sep() + value;
    let ls = lines(text);
    let r = set_ini_result(text, key, value);
    let h = first_line_eq(ls, cfg, 0).unwrap();
    lemma_entry_plain(key, value);
    lemma_eq_k(ls, cfg, 0, h);
    lemma_section_bounds(ls, h + 1);
    let e = section_end(ls, h + 1);
    let kk = lemma_set_key_line(text, key, value);
    let l = lines(r);
    assert(trim_start(entry) == entry) by {
        assert(entry[0] == key[0]);
        lemma_trim_start_plain(entry);
    }
    assert(!starts_with(trim_start(entry), po)) by {
        lemma_apart(entry, key, other);
    }
    assert(strip_cr(entry) == entry);
    match config_key_line(ls, key) {
        Some(k) => {
            lemma_first_k_from(ls.take(e), p, h + 1, k);
            assert(ls.take(e)[k] == ls[k]);
            lemma_key_line_no_header(ls[k], key);
            assert(l == ls.update(k, entry));
            assert(l.take(h + 1) =~= ls.take(h + 1));
            lemma_headers_update(ls, k, entry);
            assert forall|j: int| 0 <= j < l.len() implies strip_cr(#[trigger] l[j]) == l[j] by {
                if j != k {
                    assert(l[j] == ls[j]);
                }
            }
            assert(config_key_line(l, key) == Some(kk));
            // the section ends where it did
            match first_header_line(ls, h + 1) {
                Some(e0) => {
                    lemma_hdr_k(ls, h + 1, e0);
                    assert forall|j: int| h + 1 <= j < e0 implies !is_section_header(
                        #[trigger] l[j],
                    ) by {
                        if j != k {
                            assert(l[j] == ls[j]);
                        }
                    }
                    assert(e == e0);
                    assert(l[e0] == ls[e0]);
                    lemma_hdr_at(l, h + 1, e0);
                },
                None => {
                    lemma_hdr_none(ls, h + 1);
                    assert forall|j: int| h + 1 <= j < l.len() implies !is_section_header(
                        #[trigger] l[j],
                    ) by {
                        if j != k {
                            assert(l[j] == ls[j]);
                        }
                    }
                    lemma_hdr_none(l, h + 1);
                },
            }
            assert(section_end(l, h + 1) == e);
            let lt = l.take(e);
            let st = ls.take(e);
            assert forall|j: int| h + 1 <= j < lt.len() implies starts_with(
                trim_start(#[trigger] lt[j]),
                po,
            ) == starts_with(trim_start(st[j]), po) by {
                if j == k {
                    assert(st[j] == ls[k]);
                    lemma_apart(trim_start(ls[k]), key, other);
                } else {
                    assert(lt[j] == st[j]);
                }
            }
            lemma_with_same(lt, st, po, h + 1);
            assert forall|j: int| 0 <= j < h implies #[trigger] l[j] != cfg by {
                assert(l[j] == ls[j]);
            }
            lemma_eq_at(l, cfg, 0, h);
            match config_key_line(ls, other) {
                Some(j) => {
                    lemma_first_k_from(st, po, h + 1, j);
                    assert(st[j] == ls[j]);
                    if j == k {
                        lemma_apart(trim_start(ls[k]), key, other);
                    }
                    assert(l[j] == ls[j]);
                },
                None => {},
            }
        },
        None => {
            assert(l == ls.insert(h + 1, entry));
            assert(l.take(h + 1) =~= ls.take(h + 1));
            lemma_headers_insert(ls, h + 1, entry);
            assert forall|j: int| 0 <= j < l.len() implies strip_cr(#[trigger] l[j]) == l[j] by {
                if j < h + 1 {
                    assert(l[j] == ls[j]);
                } else if j > h + 1 {
                    assert(l[j] == ls[j - 1]);
                }
            }
            assert forall|j: int| 0 <= j < h implies #[trigger] l[j] != cfg by {
                assert(l[j] == ls[j]);
            }
            assert(l[h] == ls[h]);
            lemma_eq_at(l, cfg, 0, h);
            // the section grows by the inserted line
            assert forall|j: int| h + 1 <= j < ls.len() implies l[j + 1] == #[trigger] ls[j] by {}
            lemma_hdr_shift(ls, l, h + 1);
            assert(first_header_line(l, h + 1) == first_header_line(l, h + 2));
            let el = section_end(l, h + 1);
            assert(el == e + 1);
            let lt = l.take(el);
            let st = ls.take(e);
            assert forall|j: int| h + 1 <= j < st.len() implies lt[j + 1] == #[trigger] st[j] by {
                assert(lt[j + 1] == l[j + 1]);
            }
            lemma_with_shift(st, lt, po, h + 1);
            assert(lt[h + 1] == entry);
            assert(first_line_with(lt, po, h + 1) == first_line_with(lt, po, h + 2));
            match config_key_line(ls, other) {
                Some(j) => {
                    lemma_first_k_from(st, po, h + 1, j);
                    assert(lt[j + 1] == st[j]);
                    assert(l[j + 1] == ls[j]);
                },
                None => {},
            }
        },
    }
}

proof fn lemma_join_push(fs: Seq<Seq<char>>, l: Seq<char>)
    requires
        fs.len() > 0,
    ensures
        join_lines(fs.push(l)) == join_lines(fs) + seq!['\n'] + l,
{
    assert(fs.push(l).drop_last() =~= fs);
}

} // verus!
