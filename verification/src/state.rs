//! The session state file: `key=value` lines under the user's config
//! directory. Reading keeps, for each key, the value of its last line;
//! writing emits one line per remembered setting.
use vstd::prelude::*;
use crate::text::{chars_of, push_char, push_chars, push_decimal, decimal, string_from_chars};

verus! {

/// `char::is_whitespace`: the Unicode `White_Space` characters.
pub open spec fn is_ws(c: char) -> bool {
    ('\u{9}' <= c && c <= '\u{d}') || c == ' ' || c == '\u{85}' || c == '\u{a0}' || c == '\u{1680}'
        || ('\u{2000}' <= c && c <= '\u{200a}') || c == '\u{2028}' || c == '\u{2029}' || c
        == '\u{202f}' || c == '\u{205f}' || c == '\u{3000}'
}

fn ws(c: char) -> (b: bool)
    ensures
        b == is_ws(c),
{
    ('\u{9}' <= c && c <= '\u{d}') || c == ' ' || c == '\u{85}' || c == '\u{a0}' || c == '\u{1680}'
        || ('\u{2000}' <= c && c <= '\u{200a}') || c == '\u{2028}' || c == '\u{2029}' || c
        == '\u{202f}' || c == '\u{205f}' || c == '\u{3000}'
}

/// `s` without leading whitespace.
pub open spec fn trim_start(s: Seq<char>) -> Seq<char>
    decreases s.len(),
{
    if s.len() > 0 && is_ws(s[0]) {
        trim_start(s.drop_first())
    } else {
        s
    }
}

/// `s` without trailing whitespace.
pub open spec fn trim_end(s: Seq<char>) -> Seq<char>
    decreases s.len(),
{
    if s.len() > 0 && is_ws(s.last()) {
        trim_end(s.drop_last())
    } else {
        s
    }
}

/// `str::trim`: `s` without leading or trailing whitespace.
pub open spec fn trim(s: Seq<char>) -> Seq<char> {
    trim_end(trim_start(s))
}

/// The named parts of a path cut at its `/`s: the pieces that are neither
/// empty (doubled or trailing slashes) nor `.`, in order.
pub open spec fn named_parts(pieces: Seq<Seq<char>>) -> Seq<Seq<char>>
    decreases pieces.len(),
{
    if pieces.len() == 0 {
        Seq::empty()
    } else if pieces.last().len() == 0 || pieces.last() == seq!['.'] {
        named_parts(pieces.drop_last())
    } else {
        named_parts(pieces.drop_last()).push(pieces.last())
    }
}

/// Whether a path starts at the root.
pub open spec fn path_rooted(p: Seq<char>) -> bool {
    p.len() > 0 && p[0] == '/'
}

/// Whether a relative path starts with the current directory, `.`.
pub open spec fn path_here(p: Seq<char>) -> bool {
    &&& !path_rooted(p)
    &&& p.len() > 0 && p[0] == '.'
    &&& (p.len() == 1 || p[1] == '/')
}

/// Whether two Unix paths name the same components: both rooted or not,
/// both starting with `.` or not, and the same named parts in order (so
/// doubled slashes, a trailing slash and inner `.` parts make no
/// difference, as with `Path`'s equality).
pub open spec fn path_eq(a: Seq<char>, b: Seq<char>) -> bool {
    &&& path_rooted(a) == path_rooted(b)
    &&& path_here(a) == path_here(b)
    &&& named_parts(split_on(a, '/')) == named_parts(split_on(b, '/'))
}

/// The named parts of the path `s` (see `named_parts`).
pub fn path_parts(s: &str) -> (out: Vec<String>)
    ensures
        out@.map_values(|p: String| p@) == named_parts(split_on(s@, '/')),
{
    let cs = chars_of(s);
    let mut out: Vec<String> = Vec::new();
    let mut start: usize = 0;
    let mut i: usize = 0;
    proof {
        assert(cs@.take(0) =~= Seq::<char>::empty());
        assert(split_on(cs@.take(0), '/') =~= seq![Seq::<char>::empty()]);
        assert(cs@.subrange(0, 0) =~= Seq::<char>::empty());
        assert(split_on(cs@.take(0), '/').drop_last() =~= Seq::<Seq<char>>::empty());
        assert(out@.map_values(|p: String| p@) =~= Seq::<Seq<char>>::empty());
    }
    while i < cs.len()
        invariant
            start <= i <= cs@.len(),
            cs@ == s@,
            split_on(cs@.take(i as int), '/') == split_on(cs@.take(start as int), '/').drop_last().push(
                cs@.subrange(start as int, i as int),
            ),
            out@.map_values(|p: String| p@) == named_parts(
                split_on(cs@.take(start as int), '/').drop_last(),
            ),
        decreases cs@.len() - i,
    {
        let ghost prefix = split_on(cs@.take(start as int), '/').drop_last();
        let ghost cur = cs@.subrange(start as int, i as int);
        proof {
            lemma_split_push(cs@.take(i as int), cs@[i as int], '/');
            assert(cs@.take(i as int + 1) =~= cs@.take(i as int).push(cs@[i as int]));
            lemma_split_nonempty(cs@.take(i as int), '/');
        }
        if cs[i] == '/' {
            let dot = i == start + 1 && cs[start] == '.';
            proof {
                if dot {
                    assert(cur =~= seq!['.']);
                } else if cur.len() == 1 {
                    assert(cur[0] != '.');
                    assert(cur != seq!['.']);
                }
            }
            if i > start && !dot {
                let piece = string_of_range(&cs, start, i);
                out.push(piece);
            }
            proof {
                let lines = prefix.push(cur);
                assert(split_on(cs@.take(i as int + 1), '/').drop_last() =~= lines);
                assert(lines.drop_last() =~= prefix);
                assert(lines.last() == cur);
                assert(cs@.subrange(i as int + 1, i as int + 1) =~= Seq::<char>::empty());
                assert(out@.map_values(|p: String| p@) =~= named_parts(lines));
            }
            start = i + 1;
        } else {
            proof {
                assert(split_on(cs@.take(i as int), '/').drop_last() =~= prefix);
                assert(cs@.subrange(start as int, i as int + 1) =~= cur.push(cs@[i as int]));
                assert(split_on(cs@.take(i as int + 1), '/') =~= prefix.push(
                    cs@.subrange(start as int, i as int + 1),
                ));
            }
        }
        i = i + 1;
    }
    let ghost prefix = split_on(cs@.take(start as int), '/').drop_last();
    let ghost last = cs@.subrange(start as int, i as int);
    let dot = i > start && i - start == 1 && cs[start] == '.';
    proof {
        if dot {
            assert(last =~= seq!['.']);
        } else if last.len() == 1 {
            assert(last[0] != '.');
            assert(last != seq!['.']);
        }
    }
    if i > start && !dot {
        let piece = string_of_range(&cs, start, i);
        out.push(piece);
    }
    proof {
        assert(cs@.take(i as int) =~= cs@);
        let all = prefix.push(last);
        assert(all.drop_last() =~= prefix);
        assert(out@.map_values(|p: String| p@) =~= named_parts(all));
    }
    out
}

/// Whether the paths `a` and `b` name the same file (see `path_eq`).
pub fn same_path(a: &str, b: &str) -> (r: bool)
    ensures
        r == path_eq(a@, b@),
{
    let ca = chars_of(a);
    let cb = chars_of(b);
    let rooted_a = ca.len() > 0 && ca[0] == '/';
    let rooted_b = cb.len() > 0 && cb[0] == '/';
    let here_a = !rooted_a && ca.len() > 0 && ca[0] == '.' && (ca.len() == 1 || ca[1] == '/');
    let here_b = !rooted_b && cb.len() > 0 && cb[0] == '.' && (cb.len() == 1 || cb[1] == '/');
    if rooted_a != rooted_b || here_a != here_b {
        return false;
    }
    let pa = path_parts(a);
    let pb = path_parts(b);
    let ghost va = pa@.map_values(|p: String| p@);
    let ghost vb = pb@.map_values(|p: String| p@);
    assert(path_eq(a@, b@) <==> va == vb);
    if pa.len() != pb.len() {
        assert(va.len() != vb.len());
        return false;
    }
    let mut k: usize = 0;
    while k < pa.len()
        invariant
            k <= pa@.len() == pb@.len(),
            va == pa@.map_values(|p: String| p@),
            vb == pb@.map_values(|p: String| p@),
            forall|j: int| 0 <= j < k ==> va[j] == vb[j],
            path_eq(a@, b@) <==> va == vb,
        decreases pa@.len() - k,
    {
        if pa[k] != pb[k] {
            assert(va[k as int] != vb[k as int]);
            return false;
        }
        k = k + 1;
    }
    assert(va =~= vb);
    true
}

/// `s` cut at every `sep`; the pieces never hold `sep`, and there is always
/// at least one piece (the empty text is one empty piece).
pub open spec fn split_on(s: Seq<char>, sep: char) -> Seq<Seq<char>>
    decreases s.len(),
{
    if s.len() == 0 {
        seq![Seq::empty()]
    } else {
        let rest = split_on(s.drop_last(), sep);
        if s.last() == sep {
            rest.push(Seq::empty())
        } else {
            rest.update(rest.len() - 1, rest.last().push(s.last()))
        }
    }
}

/// The index of the first `c` in `s`, if any.
pub open spec fn first_index(s: Seq<char>, c: char) -> Option<nat>
    decreases s.len(),
{
    if s.len() == 0 {
        None
    } else if s[0] == c {
        Some(0)
    } else {
        match first_index(s.drop_first(), c) {
            Some(i) => Some(i + 1),
            None => None,
        }
    }
}

/// The entry a state line stands for: split at its first `=`, both sides
/// trimmed; a line without `=` stands for nothing.
pub open spec fn line_entry(line: Seq<char>) -> Option<(Seq<char>, Seq<char>)> {
    match first_index(line, '=') {
        Some(i) => Some((trim(line.take(i as int)), trim(line.skip(i as int + 1)))),
        None => None,
    }
}

/// The entries of the given lines, in order.
pub open spec fn entries_of(lines: Seq<Seq<char>>) -> Seq<(Seq<char>, Seq<char>)>
    decreases lines.len(),
{
    if lines.len() == 0 {
        Seq::empty()
    } else {
        let rest = entries_of(lines.drop_last());
        match line_entry(lines.last()) {
            Some(e) => rest.push(e),
            None => rest,
        }
    }
}

/// The entries a state file's text holds, in file order.
pub open spec fn parsed_state(text: Seq<char>) -> Seq<(Seq<char>, Seq<char>)> {
    entries_of(split_on(text, '\n'))
}

/// The value of the last entry with the given key, as a map built from the
/// entries in order keeps it.
pub open spec fn lookup(entries: Seq<(Seq<char>, Seq<char>)>, key: Seq<char>) -> Option<Seq<char>>
    decreases entries.len(),
{
    if entries.len() == 0 {
        None
    } else if entries.last().0 == key {
        Some(entries.last().1)
    } else {
        lookup(entries.drop_last(), key)
    }
}

proof fn lemma_trim_start_step(s: Seq<char>, i: int)
    requires
        0 <= i < s.len(),
        is_ws(s[i]),
    ensures
        trim_start(s.skip(i)) == trim_start(s.skip(i + 1)),
{
    assert(s.skip(i).drop_first() =~= s.skip(i + 1));
}

proof fn lemma_trim_end_step(s: Seq<char>, j: int)
    requires
        0 < j <= s.len(),
        is_ws(s[j - 1]),
    ensures
        trim_end(s.take(j)) == trim_end(s.take(j - 1)),
{
    assert(s.take(j).drop_last() =~= s.take(j - 1));
}

/// The first index at or after `from` where `cs[..to]` holds no more
/// leading whitespace.
pub fn skip_ws(cs: &Vec<char>, from: usize, to: usize) -> (p: usize)
    requires
        from <= to <= cs@.len(),
    ensures
        from <= p <= to,
        trim_start(cs@.subrange(from as int, to as int)) == cs@.subrange(p as int, to as int),
{
    let ghost s = cs@.subrange(from as int, to as int);
    let mut i: usize = from;
    assert(s.skip(0) =~= s);
    while i < to && ws(cs[i])
        invariant
            from <= i <= to <= cs@.len(),
            s == cs@.subrange(from as int, to as int),
            trim_start(s) == trim_start(s.skip(i - from)),
        decreases to - i,
    {
        proof {
            lemma_trim_start_step(s, i - from);
        }
        i = i + 1;
    }
    proof {
        let t = s.skip(i - from);
        if t.len() > 0 {
            assert(t[0] == cs@[i as int]);
        }
        assert(trim_start(t) == t);
        assert(t =~= cs@.subrange(i as int, to as int));
    }
    i
}

/// The end of `cs[from..to]` once its trailing whitespace is dropped.
pub fn drop_ws_end(cs: &Vec<char>, from: usize, to: usize) -> (q: usize)
    requires
        from <= to <= cs@.len(),
    ensures
        from <= q <= to,
        trim_end(cs@.subrange(from as int, to as int)) == cs@.subrange(from as int, q as int),
{
    let ghost t = cs@.subrange(from as int, to as int);
    let mut j: usize = to;
    assert(t.take(to - from) =~= t);
    while j > from && ws(cs[j - 1])
        invariant
            from <= j <= to <= cs@.len(),
            t == cs@.subrange(from as int, to as int),
            trim_end(t) == trim_end(t.take(j - from)),
        decreases j - from,
    {
        proof {
            lemma_trim_end_step(t, j - from);
        }
        j = j - 1;
    }
    proof {
        let u = t.take(j - from);
        if u.len() > 0 {
            assert(u.last() == cs@[j - 1]);
        }
        assert(trim_end(u) == u);
        assert(u =~= cs@.subrange(from as int, j as int));
    }
    j
}

/// The trimmed characters `cs[from..to]`.
pub fn trim_range(cs: &Vec<char>, from: usize, to: usize) -> (out: String)
    requires
        from <= to <= cs@.len(),
    ensures
        out@ == trim(cs@.subrange(from as int, to as int)),
{
    let i = skip_ws(cs, from, to);
    let j = drop_ws_end(cs, i, to);
    string_of_range(cs, i, j)
}

proof fn lemma_first_index_none(s: Seq<char>, c: char)
    requires
        forall|k: int| 0 <= k < s.len() ==> s[k] != c,
    ensures
        first_index(s, c) is None,
    decreases s.len(),
{
    if s.len() > 0 {
        lemma_first_index_none(s.drop_first(), c);
    }
}

proof fn lemma_first_index_at(s: Seq<char>, c: char, i: int)
    requires
        0 <= i < s.len(),
        s[i] == c,
        forall|k: int| 0 <= k < i ==> s[k] != c,
    ensures
        first_index(s, c) == Some(i as nat),
    decreases i,
{
    if i > 0 {
        lemma_first_index_at(s.drop_first(), c, i - 1);
    }
}

/// The entry of the line `cs[from..to]`, if it holds an `=`.
fn entry_of_range(cs: &Vec<char>, from: usize, to: usize) -> (out: Option<(String, String)>)
    requires
        from <= to <= cs@.len(),
    ensures
        match line_entry(cs@.subrange(from as int, to as int)) {
            Some(e) => out matches Some(p) && p.0@ == e.0 && p.1@ == e.1,
            None => out is None,
        },
{
    let ghost line = cs@.subrange(from as int, to as int);
    let mut i: usize = from;
    while i < to && cs[i] != '='
        invariant
            from <= i <= to <= cs@.len(),
            line == cs@.subrange(from as int, to as int),
            forall|k: int| 0 <= k < i - from ==> line[k] != '=',
        decreases to - i,
    {
        i = i + 1;
    }
    if i == to {
        proof {
            lemma_first_index_none(line, '=');
        }
        None
    } else {
        proof {
            lemma_first_index_at(line, '=', i - from);
            assert(line.take(i - from) =~= cs@.subrange(from as int, i as int));
            assert(line.skip(i - from + 1) =~= cs@.subrange(i + 1, to as int));
        }
        let k = trim_range(cs, from, i);
        let v = trim_range(cs, i + 1, to);
        Some((k, v))
    }
}

proof fn lemma_split_push(s: Seq<char>, c: char, sep: char)
    ensures
        split_on(s.push(c), sep) == if c == sep {
            split_on(s, sep).push(Seq::empty())
        } else {
            split_on(s, sep).update(
                split_on(s, sep).len() - 1,
                split_on(s, sep).last().push(c),
            )
        },
{
    assert(s.push(c).drop_last() =~= s);
}

proof fn lemma_split_nonempty(s: Seq<char>, sep: char)
    ensures
        split_on(s, sep).len() >= 1,
    decreases s.len(),
{
    if s.len() > 0 {
        lemma_split_nonempty(s.drop_last(), sep);
    }
}

/// Parses the text of a state file into its entries, in file order.
pub fn parse_state(text: &str) -> (out: Vec<(String, String)>)
    ensures
        out@.len() == parsed_state(text@).len(),
        forall|i: int|
            0 <= i < out@.len() ==> out@[i].0@ == parsed_state(text@)[i].0 && out@[i].1@
                == parsed_state(text@)[i].1,
{
    let cs = chars_of(text);
    let mut out: Vec<(String, String)> = Vec::new();
    let mut start: usize = 0;
    let mut i: usize = 0;
    proof {
        assert(cs@.take(0) =~= Seq::<char>::empty());
        assert(split_on(cs@.take(0), '\n') =~= seq![Seq::<char>::empty()]);
        assert(cs@.subrange(0, 0) =~= Seq::<char>::empty());
        assert(split_on(cs@.take(0), '\n').drop_last() =~= Seq::<Seq<char>>::empty());
    }
    while i < cs.len()
        invariant
            start <= i <= cs@.len(),
            cs@ == text@,
            split_on(cs@.take(i as int), '\n') == split_on(cs@.take(start as int), '\n').drop_last().push(
                cs@.subrange(start as int, i as int),
            ),
            forall|k: int| start <= k < i ==> cs@[k] != '\n',
            out@.len() == entries_of(split_on(cs@.take(start as int), '\n').drop_last()).len(),
            forall|k: int|
                0 <= k < out@.len() ==> out@[k].0@ == entries_of(
                    split_on(cs@.take(start as int), '\n').drop_last(),
                )[k].0 && out@[k].1@ == entries_of(
                    split_on(cs@.take(start as int), '\n').drop_last(),
                )[k].1,
        decreases cs@.len() - i,
    {
        let ghost prefix_lines = split_on(cs@.take(start as int), '\n').drop_last();
        let ghost cur = cs@.subrange(start as int, i as int);
        proof {
            lemma_split_push(cs@.take(i as int), cs@[i as int], '\n');
            assert(cs@.take(i as int + 1) =~= cs@.take(i as int).push(cs@[i as int]));
            lemma_split_nonempty(cs@.take(i as int), '\n');
        }
        if cs[i] == '\n' {
            let e = entry_of_range(&cs, start, i);
            match e {
                Some(p) => {
                    out.push(p);
                },
                None => {},
            }
            proof {
                let new_lines = prefix_lines.push(cur);
                assert(split_on(cs@.take(i as int + 1), '\n') == new_lines.push(Seq::<char>::empty()));
                assert(split_on(cs@.take(i as int + 1), '\n').drop_last() =~= new_lines);
                assert(new_lines.drop_last() =~= prefix_lines);
                assert(new_lines.last() == cur);
                assert(cs@.subrange(i as int + 1, i as int + 1) =~= Seq::<char>::empty());
            }
            start = i + 1;
        } else {
            proof {
                let old_split = split_on(cs@.take(i as int), '\n');
                assert(old_split.drop_last() =~= prefix_lines);
                assert(cs@.subrange(start as int, i as int + 1) =~= cur.push(cs@[i as int]));
                assert(split_on(cs@.take(i as int + 1), '\n') =~= prefix_lines.push(
                    cs@.subrange(start as int, i as int + 1),
                ));
            }
        }
        i = i + 1;
    }
    let ghost prefix_lines = split_on(cs@.take(start as int), '\n').drop_last();
    let e = entry_of_range(&cs, start, i);
    match e {
        Some(p) => {
            out.push(p);
        },
        None => {},
    }
    proof {
        assert(cs@.take(i as int) =~= cs@);
        let all = prefix_lines.push(cs@.subrange(start as int, i as int));
        assert(split_on(text@, '\n') == all);
        assert(all.drop_last() =~= prefix_lines);
    }
    out
}

/// The value of the last entry with key `key`, if any.
pub fn state_get(entries: &Vec<(String, String)>, key: &str) -> (out: Option<String>)
    ensures
        out matches Some(v) ==> lookup(entries@.map_values(|e: (String, String)| (e.0@, e.1@)), key@)
            == Some(v@),
        out is None ==> lookup(entries@.map_values(|e: (String, String)| (e.0@, e.1@)), key@) is None,
{
    let ghost es = entries@.map_values(|e: (String, String)| (e.0@, e.1@));
    let mut i: usize = entries.len();
    let k = key.to_owned();
    assert(es.take(entries@.len() as int) =~= es);
    while i > 0
        invariant
            i <= entries@.len(),
            es == entries@.map_values(|e: (String, String)| (e.0@, e.1@)),
            k@ == key@,
            lookup(es, key@) == lookup(es.take(i as int), key@),
        decreases i,
    {
        proof {
            assert(es.take(i as int).drop_last() =~= es.take(i as int - 1));
        }
        if entries[i - 1].0 == k {
            return Some(entries[i - 1].1.clone());
        }
        i = i - 1;
    }
    None
}

} // verus!

verus! {

/// A `key=value` line, without its line ending.
pub open spec fn kv(key: Seq<char>, value: Seq<char>) -> Seq<char> {
    key + seq!['='] + value
}

/// The text of the given lines, each ended by `\n`.
pub open spec fn text_of_lines(lines: Seq<Seq<char>>) -> Seq<char>
    decreases lines.len(),
{
    if lines.len() == 0 {
        Seq::empty()
    } else {
        text_of_lines(lines.drop_last()) + lines.last() + seq!['\n']
    }
}

/// The given pieces joined by `sep`.
pub open spec fn joined(pieces: Seq<Seq<char>>, sep: char) -> Seq<char>
    decreases pieces.len(),
{
    if pieces.len() == 0 {
        Seq::empty()
    } else if pieces.len() == 1 {
        pieces[0]
    } else {
        joined(pieces.drop_last(), sep).push(sep) + pieces.last()
    }
}

/// How a switch is written in the state file.
pub open spec fn flag_text(on: bool) -> Seq<char> {
    if on {
        "true"@
    } else {
        "false"@
    }
}

/// What a session remembers, each value already in the text it is written as.
pub struct SavedState {
    /// The music folder, if one was chosen.
    pub music_dir: Option<String>,
    /// The volume, as written.
    pub volume: String,
    /// The id of the colour skin.
    pub skin: String,
    /// The index of the chosen room background.
    pub bg_idx: usize,
    /// The paths of the backgrounds the user added, in order.
    pub bg_files: Vec<String>,
    /// Whether the album-cover wallpaper fills the space behind the deck.
    pub wallpaper: bool,
    /// The loaded track's path and its position in seconds as written, if a
    /// tape is in the deck.
    pub resume: Option<(String, String)>,
}

impl SavedState {
    /// The added backgrounds' paths as character sequences.
    pub open spec fn files_view(&self) -> Seq<Seq<char>> {
        self.bg_files@.map_values(|f: String| f@)
    }

    /// The lines of the state file, in the order they are written.
    pub open spec fn lines(&self) -> Seq<Seq<char>> {
        let a = match self.music_dir {
            Some(d) => seq![kv("music_dir"@, d@)],
            None => Seq::empty(),
        };
        let b = a.push(kv("volume"@, self.volume@)).push(kv("skin"@, self.skin@)).push(
            kv("bg_idx"@, crate::text::decimal(self.bg_idx as nat)),
        ).push(kv("wallpaper"@, flag_text(self.wallpaper)));
        let c = if self.bg_files@.len() > 0 {
            b.push(kv("bg_files"@, joined(self.files_view(), '\t')))
        } else {
            b
        };
        match self.resume {
            Some(r) => c.push(kv("last_track"@, r.0@)).push(kv("last_pos_secs"@, r.1@)),
            None => c,
        }
    }
}

proof fn lemma_text_push(lines: Seq<Seq<char>>, line: Seq<char>)
    ensures
        text_of_lines(lines.push(line)) == text_of_lines(lines) + line + seq!['\n'],
{
    assert(lines.push(line).drop_last() =~= lines);
}

fn push_line(out: &mut String, key: &str, value: &str)
    ensures
        final(out)@ == old(out)@ + kv(key@, value@) + seq!['\n'],
{
    out.append(key);
    push_char(out, '=');
    out.append(value);
    push_char(out, '\n');
    assert(final(out)@ =~= old(out)@ + kv(key@, value@) + seq!['\n']);
}

/// The paths joined by tabs.
pub fn join_tabs(files: &Vec<String>) -> (out: String)
    ensures
        out@ == joined(files@.map_values(|f: String| f@), '\t'),
{
    let ghost fs = files@.map_values(|f: String| f@);
    let mut out = String::new();
    let mut i: usize = 0;
    while i < files.len()
        invariant
            i <= files@.len(),
            fs == files@.map_values(|f: String| f@),
            out@ == joined(fs.take(i as int), '\t'),
        decreases files@.len() - i,
    {
        let ghost before = out@;
        if i > 0 {
            push_char(&mut out, '\t');
        }
        out.append(files[i].as_str());
        proof {
            let t = fs.take(i as int + 1);
            assert(t.drop_last() =~= fs.take(i as int));
            assert(t.last() == files@[i as int]@);
            if i == 0 {
                assert(joined(fs.take(0), '\t') =~= Seq::<char>::empty());
                assert(out@ =~= t[0]);
            } else {
                assert(out@ =~= joined(t.drop_last(), '\t').push('\t') + t.last());
            }
        }
        i = i + 1;
    }
    assert(fs.take(files@.len() as int) =~= fs);
    out
}

/// The text of the state file for `st`.
pub fn render_state(st: &SavedState) -> (out: String)
    ensures
        out@ == text_of_lines(st.lines()),
{
    let ghost a = match &st.music_dir {
        Some(d) => seq![kv("music_dir"@, d@)],
        None => Seq::<Seq<char>>::empty(),
    };
    let mut out = String::new();
    match &st.music_dir {
        Some(d) => {
            push_line(&mut out, "music_dir", d.as_str());
            proof {
                lemma_text_push(Seq::empty(), kv("music_dir"@, d@));
                assert(Seq::<Seq<char>>::empty().push(kv("music_dir"@, d@)) =~= a);
                assert(out@ =~= text_of_lines(a));
            }
        },
        None => {
            assert(out@ =~= text_of_lines(a));
        },
    }
    assert(out@ == text_of_lines(a));
    push_line(&mut out, "volume", st.volume.as_str());
    push_line(&mut out, "skin", st.skin.as_str());
    let mut n = String::new();
    push_decimal(&mut n, st.bg_idx as u64);
    push_line(&mut out, "bg_idx", n.as_str());
    let w: &str = if st.wallpaper {
        "true"
    } else {
        "false"
    };
    push_line(&mut out, "wallpaper", w);
    let ghost b = a.push(kv("volume"@, st.volume@)).push(kv("skin"@, st.skin@)).push(
        kv("bg_idx"@, decimal(st.bg_idx as nat)),
    ).push(kv("wallpaper"@, flag_text(st.wallpaper)));
    proof {
        assert(n@ =~= decimal(st.bg_idx as nat));
        assert(w@ == flag_text(st.wallpaper));
        let a1 = a.push(kv("volume"@, st.volume@));
        let a2 = a1.push(kv("skin"@, st.skin@));
        let a3 = a2.push(kv("bg_idx"@, decimal(st.bg_idx as nat)));
        lemma_text_push(a, kv("volume"@, st.volume@));
        lemma_text_push(a1, kv("skin"@, st.skin@));
        lemma_text_push(a2, kv("bg_idx"@, decimal(st.bg_idx as nat)));
        lemma_text_push(a3, kv("wallpaper"@, flag_text(st.wallpaper)));
        assert(out@ =~= text_of_lines(b));
    }
    assert(out@ == text_of_lines(b));
    if st.bg_files.len() > 0 {
        let j = join_tabs(&st.bg_files);
        push_line(&mut out, "bg_files", j.as_str());
        proof {
            lemma_text_push(b, kv("bg_files"@, joined(st.files_view(), '\t')));
            assert(out@ =~= text_of_lines(b.push(kv("bg_files"@, joined(st.files_view(), '\t')))));
        }
    }
    match &st.resume {
        Some(r) => {
            push_line(&mut out, "last_track", r.0.as_str());
            push_line(&mut out, "last_pos_secs", r.1.as_str());
            proof {
                let c = if st.bg_files@.len() > 0 {
                    b.push(kv("bg_files"@, joined(st.files_view(), '\t')))
                } else {
                    b
                };
                lemma_text_push(c, kv("last_track"@, r.0@));
                lemma_text_push(c.push(kv("last_track"@, r.0@)), kv("last_pos_secs"@, r.1@));
                assert(out@ =~= text_of_lines(c.push(kv("last_track"@, r.0@)).push(kv("last_pos_secs"@, r.1@))));
            }
        },
        None => {},
    }
    out
}

} // verus!

verus! {

/// A value that reads back unchanged from a state line: it holds no line
/// break and neither starts nor ends with whitespace.
pub open spec fn clean_value(v: Seq<char>) -> bool {
    &&& forall|k: int| 0 <= k < v.len() ==> v[k] != '\n'
    &&& v.len() > 0 ==> !is_ws(v[0]) && !is_ws(v.last())
}

/// An added background's path that survives the tab-separated list: not
/// empty, no tab, and clean.
pub open spec fn clean_path(p: Seq<char>) -> bool {
    &&& p.len() > 0
    &&& forall|k: int| 0 <= k < p.len() ==> p[k] != '\t'
    &&& clean_value(p)
}

/// The pieces that are not empty, in order.
pub open spec fn nonempty_pieces(pieces: Seq<Seq<char>>) -> Seq<Seq<char>>
    decreases pieces.len(),
{
    if pieces.len() == 0 {
        Seq::empty()
    } else if pieces.last().len() == 0 {
        nonempty_pieces(pieces.drop_last())
    } else {
        nonempty_pieces(pieces.drop_last()).push(pieces.last())
    }
}

proof fn lemma_clean_trim(v: Seq<char>)
    requires
        clean_value(v),
    ensures
        trim(v) == v,
{
    if v.len() > 0 {
        assert(trim_start(v) == v);
        assert(trim_end(v) == v);
    } else {
        assert(trim_start(v) == v);
        assert(trim_end(v) == v);
    }
}

proof fn lemma_split_append(p: Seq<char>, l: Seq<char>, sep: char)
    requires
        forall|k: int| 0 <= k < l.len() ==> l[k] != sep,
    ensures
        split_on(p + l, sep) == split_on(p, sep).drop_last().push(split_on(p, sep).last() + l),
    decreases l.len(),
{
    lemma_split_nonempty(p, sep);
    if l.len() == 0 {
        assert(p + l =~= p);
        assert(split_on(p, sep).last() + l =~= split_on(p, sep).last());
        assert(split_on(p, sep).drop_last().push(split_on(p, sep).last()) =~= split_on(p, sep));
    } else {
        let l2 = l.drop_last();
        let c = l.last();
        lemma_split_append(p, l2, sep);
        assert(p + l =~= (p + l2).push(c));
        lemma_split_push(p + l2, c, sep);
        let s2 = split_on(p + l2, sep);
        assert(s2 == split_on(p, sep).drop_last().push(split_on(p, sep).last() + l2));
        assert((split_on(p, sep).last() + l2).push(c) =~= split_on(p, sep).last() + l);
        assert(s2.update(s2.len() - 1, s2.last().push(c)) =~= split_on(p, sep).drop_last().push(
            split_on(p, sep).last() + l,
        ));
    }
}

proof fn lemma_split_text(lines: Seq<Seq<char>>)
    requires
        forall|i: int, k: int| 0 <= i < lines.len() && 0 <= k < lines[i].len() ==> lines[i][k] != '\n',
    ensures
        split_on(text_of_lines(lines), '\n') == lines.push(Seq::empty()),
    decreases lines.len(),
{
    if lines.len() == 0 {
        assert(split_on(Seq::<char>::empty(), '\n') =~= seq![Seq::<char>::empty()]);
        assert(lines.push(Seq::empty()) =~= seq![Seq::<char>::empty()]);
    } else {
        let front = lines.drop_last();
        let l = lines.last();
        lemma_split_text(front);
        let t = text_of_lines(front);
        assert(forall|k: int| 0 <= k < l.len() ==> l[k] == lines[lines.len() - 1][k]);
        lemma_split_append(t, l, '\n');
        assert(front.push(Seq::empty()).drop_last() =~= front);
        assert(Seq::<char>::empty() + l =~= l);
        assert(split_on(t + l, '\n') == front.push(l));
        assert(text_of_lines(lines) =~= (t + l).push('\n'));
        lemma_split_push(t + l, '\n', '\n');
        assert(front.push(l) =~= lines);
    }
}

proof fn lemma_entries_push(lines: Seq<Seq<char>>, line: Seq<char>)
    ensures
        entries_of(lines.push(line)) == match line_entry(line) {
            Some(e) => entries_of(lines).push(e),
            None => entries_of(lines),
        },
{
    assert(lines.push(line).drop_last() =~= lines);
}

proof fn lemma_lookup_push_all(es: Seq<(Seq<char>, Seq<char>)>, e: (Seq<char>, Seq<char>))
    ensures
        forall|key: Seq<char>|
            #[trigger] lookup(es.push(e), key) == if e.0 == key {
                Some(e.1)
            } else {
                lookup(es, key)
            },
{
    assert(es.push(e).drop_last() =~= es);
}

/// `s` holds no `c`.
pub open spec fn no_char(s: Seq<char>, c: char) -> bool {
    forall|k: int| 0 <= k < s.len() ==> s[k] != c
}

proof fn lemma_kv_no(key: Seq<char>, value: Seq<char>, c: char)
    requires
        c != '=',
        no_char(key, c),
        no_char(value, c),
    ensures
        no_char(kv(key, value), c),
{
    let line = kv(key, value);
    assert forall|k: int| 0 <= k < line.len() implies line[k] != c by {
        if k < key.len() {
            assert(line[k] == key[k]);
        } else if k > key.len() {
            assert(line[k] == value[k - key.len() - 1]);
        }
    }
}

proof fn lemma_lookup_push(es: Seq<(Seq<char>, Seq<char>)>, e: (Seq<char>, Seq<char>), key: Seq<char>)
    ensures
        lookup(es.push(e), key) == if e.0 == key {
            Some(e.1)
        } else {
            lookup(es, key)
        },
{
    assert(es.push(e).drop_last() =~= es);
}

proof fn lemma_parsed_text(lines: Seq<Seq<char>>)
    requires
        forall|i: int, k: int| 0 <= i < lines.len() && 0 <= k < lines[i].len() ==> lines[i][k] != '\n',
    ensures
        parsed_state(text_of_lines(lines)) == entries_of(lines),
{
    lemma_split_text(lines);
    lemma_entries_push(lines, Seq::empty());
    assert(first_index(Seq::<char>::empty(), '=') is None);
}

proof fn lemma_kv_entry(key: Seq<char>, value: Seq<char>)
    requires
        forall|k: int| 0 <= k < key.len() ==> key[k] != '=',
        trim(key) == key,
        trim(value) == value,
    ensures
        line_entry(kv(key, value)) == Some((key, value)),
{
    let line = kv(key, value);
    lemma_first_index_at(line, '=', key.len() as int);
    assert(line.take(key.len() as int) =~= key);
    assert(line.skip(key.len() as int + 1) =~= value);
}

proof fn lemma_decimal_digits(n: nat)
    ensures
        decimal(n).len() > 0,
        forall|k: int| 0 <= k < decimal(n).len() ==> '0' <= #[trigger] decimal(n)[k] <= '9',
    decreases n,
{
    if n >= 10 {
        lemma_decimal_digits(n / 10);
    }
}

proof fn lemma_joined_ends(fs: Seq<Seq<char>>, sep: char)
    requires
        fs.len() > 0,
        forall|i: int| 0 <= i < fs.len() ==> #[trigger] fs[i].len() > 0,
    ensures
        joined(fs, sep).len() > 0,
        joined(fs, sep)[0] == fs[0][0],
        joined(fs, sep).last() == fs.last().last(),
    decreases fs.len(),
{
    if fs.len() > 1 {
        let front = fs.drop_last();
        assert(front[0] == fs[0]);
        assert(forall|i: int| 0 <= i < front.len() ==> front[i] == fs[i]);
        lemma_joined_ends(front, sep);
    }
}

proof fn lemma_joined_no(fs: Seq<Seq<char>>, sep: char, c: char)
    requires
        c != sep,
        forall|i: int, k: int| 0 <= i < fs.len() && 0 <= k < fs[i].len() ==> fs[i][k] != c,
    ensures
        forall|k: int| 0 <= k < joined(fs, sep).len() ==> joined(fs, sep)[k] != c,
    decreases fs.len(),
{
    if fs.len() > 1 {
        let front = fs.drop_last();
        assert(forall|i: int| 0 <= i < front.len() ==> front[i] == fs[i]);
        lemma_joined_no(front, sep, c);
        let j = joined(front, sep).push(sep);
        assert(forall|k: int| 0 <= k < fs.last().len() ==> fs.last()[k] == fs[fs.len() - 1][k]);
        assert forall|k: int| 0 <= k < joined(fs, sep).len() implies joined(fs, sep)[k] != c by {
            if k < j.len() {
                assert(joined(fs, sep)[k] == j[k]);
            } else {
                assert(joined(fs, sep)[k] == fs.last()[k - j.len()]);
            }
        }
    } else if fs.len() == 1 {
        assert(forall|k: int| 0 <= k < fs[0].len() ==> fs[0][k] != c);
    }
}

proof fn lemma_split_joined(fs: Seq<Seq<char>>, sep: char)
    requires
        fs.len() > 0,
        forall|i: int, k: int| 0 <= i < fs.len() && 0 <= k < fs[i].len() ==> fs[i][k] != sep,
    ensures
        split_on(joined(fs, sep), sep) == fs,
    decreases fs.len(),
{
    let l = fs.last();
    assert(forall|k: int| 0 <= k < l.len() ==> l[k] == fs[fs.len() - 1][k]);
    if fs.len() == 1 {
        lemma_split_append(Seq::empty(), l, sep);
        assert(Seq::<char>::empty() + l =~= l);
        assert(split_on(Seq::<char>::empty(), sep) =~= seq![Seq::<char>::empty()]);
        assert(seq![Seq::<char>::empty()].drop_last().push(l) =~= fs);
    } else {
        let front = fs.drop_last();
        assert(forall|i: int| 0 <= i < front.len() ==> front[i] == fs[i]);
        lemma_split_joined(front, sep);
        let p = joined(front, sep).push(sep);
        lemma_split_push(joined(front, sep), sep, sep);
        lemma_split_append(p, l, sep);
        assert(front.push(Seq::empty()).drop_last() =~= front);
        assert(Seq::<char>::empty() + l =~= l);
        assert(front.push(l) =~= fs);
    }
}

proof fn lemma_nonempty_all(fs: Seq<Seq<char>>)
    requires
        forall|i: int| 0 <= i < fs.len() ==> #[trigger] fs[i].len() > 0,
    ensures
        nonempty_pieces(fs) == fs,
    decreases fs.len(),
{
    if fs.len() > 0 {
        let front = fs.drop_last();
        assert(forall|i: int| 0 <= i < front.len() ==> front[i] == fs[i]);
        lemma_nonempty_all(front);
        assert(front.push(fs.last()) =~= fs);
    }
}

/// Reading back a written state file gives back every remembered setting:
/// for each key, the value that was written, and the added backgrounds'
/// list, split at its tabs, gives back the paths in order.
pub proof fn lemma_state_roundtrip(st: SavedState)
    requires
        st.music_dir matches Some(d) ==> clean_value(d@),
        clean_value(st.volume@),
        clean_value(st.skin@),
        forall|i: int| 0 <= i < st.bg_files@.len() ==> clean_path(#[trigger] st.bg_files@[i]@),
        st.resume matches Some(r) ==> clean_value(r.0@) && clean_value(r.1@),
    ensures
        lookup(parsed_state(text_of_lines(st.lines())), "music_dir"@) == match st.music_dir {
            Some(d) => Some(d@),
            None => None::<Seq<char>>,
        },
        lookup(parsed_state(text_of_lines(st.lines())), "volume"@) == Some(st.volume@),
        lookup(parsed_state(text_of_lines(st.lines())), "skin"@) == Some(st.skin@),
        lookup(parsed_state(text_of_lines(st.lines())), "bg_idx"@) == Some(
            decimal(st.bg_idx as nat),
        ),
        lookup(parsed_state(text_of_lines(st.lines())), "wallpaper"@) == Some(flag_text(st.wallpaper)),
        lookup(parsed_state(text_of_lines(st.lines())), "bg_files"@) == if st.bg_files@.len() > 0 {
            Some(joined(st.files_view(), '\t'))
        } else {
            None::<Seq<char>>
        },
        st.bg_files@.len() > 0 ==> nonempty_pieces(split_on(joined(st.files_view(), '\t'), '\t'))
            == st.files_view(),
        lookup(parsed_state(text_of_lines(st.lines())), "last_track"@) == match st.resume {
            Some(r) => Some(r.0@),
            None => None::<Seq<char>>,
        },
        lookup(parsed_state(text_of_lines(st.lines())), "last_pos_secs"@) == match st.resume {
            Some(r) => Some(r.1@),
            None => None::<Seq<char>>,
        },
{
    reveal_strlit("music_dir");
    reveal_strlit("volume");
    reveal_strlit("skin");
    reveal_strlit("bg_idx");
    reveal_strlit("bg_files");
    reveal_strlit("wallpaper");
    reveal_strlit("true");
    reveal_strlit("false");
    reveal_strlit("last_track");
    reveal_strlit("last_pos_secs");
    let fs = st.files_view();
    let dec = decimal(st.bg_idx as nat);
    lemma_decimal_digits(st.bg_idx as nat);
    assert(clean_value(dec));
    lemma_clean_trim(dec);
    lemma_clean_trim(st.volume@);
    lemma_clean_trim(st.skin@);
    if fs.len() > 0 {
        assert forall|i: int| 0 <= i < fs.len() implies #[trigger] fs[i].len() > 0 by {
            assert(clean_path(st.bg_files@[i]@));
        }
        assert forall|i: int, k: int| 0 <= i < fs.len() && 0 <= k < fs[i].len() implies fs[i][k]
            != '\t' && fs[i][k] != '\n' by {
            assert(clean_path(st.bg_files@[i]@));
        }
        lemma_joined_ends(fs, '\t');
        lemma_joined_no(fs, '\t', '\n');
        assert(fs[0] == st.bg_files@[0]@);
        assert(fs.last() == st.bg_files@[fs.len() - 1]@);
        assert(clean_path(st.bg_files@[0]@));
        assert(clean_path(st.bg_files@[fs.len() - 1]@));
        assert(clean_value(joined(fs, '\t')));
        lemma_clean_trim(joined(fs, '\t'));
        lemma_split_joined(fs, '\t');
        lemma_nonempty_all(fs);
        lemma_kv_entry("bg_files"@, joined(fs, '\t'));
    }
    lemma_kv_entry("volume"@, st.volume@);
    lemma_kv_entry("skin"@, st.skin@);
    lemma_kv_entry("bg_idx"@, dec);
    let wp = flag_text(st.wallpaper);
    assert(clean_value(wp));
    lemma_clean_trim(wp);
    lemma_kv_entry("wallpaper"@, wp);
    let a = match st.music_dir {
        Some(d) => seq![kv("music_dir"@, d@)],
        None => Seq::<Seq<char>>::empty(),
    };
    let ea = match st.music_dir {
        Some(d) => seq![("music_dir"@, d@)],
        None => Seq::<(Seq<char>, Seq<char>)>::empty(),
    };
    match st.music_dir {
        Some(d) => {
            lemma_clean_trim(d@);
            lemma_kv_entry("music_dir"@, d@);
            lemma_entries_push(Seq::empty(), kv("music_dir"@, d@));
            assert(Seq::<Seq<char>>::empty().push(kv("music_dir"@, d@)) =~= a);
            assert(Seq::<(Seq<char>, Seq<char>)>::empty().push(("music_dir"@, d@)) =~= ea);
            lemma_lookup_push(Seq::empty(), ("music_dir"@, d@), "music_dir"@);
        },
        None => {},
    }
    assert(entries_of(a) == ea);
    let a1 = a.push(kv("volume"@, st.volume@));
    let a2 = a1.push(kv("skin"@, st.skin@));
    let a3 = a2.push(kv("bg_idx"@, dec));
    let b = a3.push(kv("wallpaper"@, wp));
    lemma_entries_push(a, kv("volume"@, st.volume@));
    lemma_entries_push(a1, kv("skin"@, st.skin@));
    lemma_entries_push(a2, kv("bg_idx"@, dec));
    lemma_entries_push(a3, kv("wallpaper"@, wp));
    let e1 = ea.push(("volume"@, st.volume@));
    let e2 = e1.push(("skin"@, st.skin@));
    let e3 = e2.push(("bg_idx"@, dec));
    let eb = e3.push(("wallpaper"@, wp));
    assert(entries_of(b) == eb);
    let c = if fs.len() > 0 {
        b.push(kv("bg_files"@, joined(fs, '\t')))
    } else {
        b
    };
    let ec = if fs.len() > 0 {
        eb.push(("bg_files"@, joined(fs, '\t')))
    } else {
        eb
    };
    if fs.len() > 0 {
        lemma_entries_push(b, kv("bg_files"@, joined(fs, '\t')));
    }
    assert(entries_of(c) == ec);
    let lines = st.lines();
    let es = match st.resume {
        Some(r) => ec.push(("last_track"@, r.0@)).push(("last_pos_secs"@, r.1@)),
        None => ec,
    };
    match st.resume {
        Some(r) => {
            lemma_clean_trim(r.0@);
            lemma_clean_trim(r.1@);
            lemma_kv_entry("last_track"@, r.0@);
            lemma_kv_entry("last_pos_secs"@, r.1@);
            lemma_entries_push(c, kv("last_track"@, r.0@));
            lemma_entries_push(c.push(kv("last_track"@, r.0@)), kv("last_pos_secs"@, r.1@));
        },
        None => {},
    }
    assert(lines == match st.resume {
        Some(r) => c.push(kv("last_track"@, r.0@)).push(kv("last_pos_secs"@, r.1@)),
        None => c,
    });
    assert(entries_of(lines) == es);
    assert forall|i: int| 0 <= i < lines.len() implies no_char(#[trigger] lines[i], '\n') by {
        let m = match st.music_dir {
            Some(d) => d@,
            None => Seq::<char>::empty(),
        };
        let r0 = match st.resume {
            Some(r) => r.0@,
            None => Seq::<char>::empty(),
        };
        let r1 = match st.resume {
            Some(r) => r.1@,
            None => Seq::<char>::empty(),
        };
        lemma_kv_no("music_dir"@, m, '\n');
        lemma_kv_no("volume"@, st.volume@, '\n');
        lemma_kv_no("skin"@, st.skin@, '\n');
        assert(no_char(dec, '\n'));
        lemma_kv_no("bg_idx"@, dec, '\n');
        lemma_kv_no("wallpaper"@, wp, '\n');
        if fs.len() > 0 {
            lemma_kv_no("bg_files"@, joined(fs, '\t'), '\n');
        }
        lemma_kv_no("last_track"@, r0, '\n');
        lemma_kv_no("last_pos_secs"@, r1, '\n');
    }
    assert forall|i: int, k: int| 0 <= i < lines.len() && 0 <= k < lines[i].len() implies lines[i][k]
        != '\n' by {
        assert(no_char(lines[i], '\n'));
    }
    lemma_parsed_text(lines);
    assert("volume"@[0] != "bg_idx"@[0]);
    lemma_lookup_push_all(ea, ("volume"@, st.volume@));
    lemma_lookup_push_all(e1, ("skin"@, st.skin@));
    lemma_lookup_push_all(e2, ("bg_idx"@, dec));
    lemma_lookup_push_all(e3, ("wallpaper"@, wp));
    if fs.len() > 0 {
        lemma_lookup_push_all(eb, ("bg_files"@, joined(fs, '\t')));
    }
    match st.resume {
        Some(r) => {
            lemma_lookup_push_all(ec, ("last_track"@, r.0@));
            lemma_lookup_push_all(ec.push(("last_track"@, r.0@)), ("last_pos_secs"@, r.1@));
        },
        None => {},
    }
    match st.music_dir {
        Some(d) => {
            lemma_lookup_push_all(Seq::empty(), ("music_dir"@, d@));
            assert(Seq::<(Seq<char>, Seq<char>)>::empty().push(("music_dir"@, d@)) =~= ea);
        },
        None => {},
    }
    assert(lookup(Seq::<(Seq<char>, Seq<char>)>::empty(), "music_dir"@) is None);
}

} // verus!

verus! {

/// The characters `cs[from..to]` as a string.
pub fn string_of_range(cs: &Vec<char>, from: usize, to: usize) -> (out: String)
    requires
        from <= to <= cs@.len(),
    ensures
        out@ == cs@.subrange(from as int, to as int),
{
    let mut out = String::new();
    let mut k: usize = from;
    while k < to
        invariant
            from <= k <= to <= cs@.len(),
            out@ == cs@.subrange(from as int, k as int),
        decreases to - k,
    {
        push_char(&mut out, cs[k]);
        assert(cs@.subrange(from as int, k + 1) =~= cs@.subrange(from as int, k as int).push(cs@[k as int]));
        k = k + 1;
    }
    out
}

/// The non-empty pieces of `s` between tabs, in order (how the list of added
/// backgrounds is read back).
pub fn split_tab_list(s: &str) -> (out: Vec<String>)
    ensures
        out@.map_values(|p: String| p@) == nonempty_pieces(split_on(s@, '\t')),
{
    let cs = chars_of(s);
    let mut out: Vec<String> = Vec::new();
    let mut start: usize = 0;
    let mut i: usize = 0;
    proof {
        assert(cs@.take(0) =~= Seq::<char>::empty());
        assert(split_on(cs@.take(0), '\t') =~= seq![Seq::<char>::empty()]);
        assert(cs@.subrange(0, 0) =~= Seq::<char>::empty());
        assert(split_on(cs@.take(0), '\t').drop_last() =~= Seq::<Seq<char>>::empty());
        assert(out@.map_values(|p: String| p@) =~= Seq::<Seq<char>>::empty());
    }
    while i < cs.len()
        invariant
            start <= i <= cs@.len(),
            cs@ == s@,
            split_on(cs@.take(i as int), '\t') == split_on(cs@.take(start as int), '\t').drop_last().push(
                cs@.subrange(start as int, i as int),
            ),
            out@.map_values(|p: String| p@) == nonempty_pieces(
                split_on(cs@.take(start as int), '\t').drop_last(),
            ),
        decreases cs@.len() - i,
    {
        let ghost prefix = split_on(cs@.take(start as int), '\t').drop_last();
        let ghost cur = cs@.subrange(start as int, i as int);
        proof {
            lemma_split_push(cs@.take(i as int), cs@[i as int], '\t');
            assert(cs@.take(i as int + 1) =~= cs@.take(i as int).push(cs@[i as int]));
            lemma_split_nonempty(cs@.take(i as int), '\t');
        }
        if cs[i] == '\t' {
            let ghost before = out@;
            if i > start {
                let piece = string_of_range(&cs, start, i);
                out.push(piece);
            }
            proof {
                let lines = prefix.push(cur);
                assert(split_on(cs@.take(i as int + 1), '\t').drop_last() =~= lines);
                assert(lines.drop_last() =~= prefix);
                assert(lines.last() == cur);
                assert(cs@.subrange(i as int + 1, i as int + 1) =~= Seq::<char>::empty());
                assert(out@.map_values(|p: String| p@) =~= nonempty_pieces(lines));
            }
            start = i + 1;
        } else {
            proof {
                assert(split_on(cs@.take(i as int), '\t').drop_last() =~= prefix);
                assert(cs@.subrange(start as int, i as int + 1) =~= cur.push(cs@[i as int]));
                assert(split_on(cs@.take(i as int + 1), '\t') =~= prefix.push(
                    cs@.subrange(start as int, i as int + 1),
                ));
            }
        }
        i = i + 1;
    }
    let ghost prefix = split_on(cs@.take(start as int), '\t').drop_last();
    let ghost last = cs@.subrange(start as int, i as int);
    if i > start {
        let piece = string_of_range(&cs, start, i);
        out.push(piece);
    }
    proof {
        assert(cs@.take(i as int) =~= cs@);
        let all = prefix.push(last);
        assert(all.drop_last() =~= prefix);
        assert(out@.map_values(|p: String| p@) =~= nonempty_pieces(all));
    }
    out
}

/// The value of a string of decimal digits.
pub open spec fn digits_value(s: Seq<char>) -> nat
    decreases s.len(),
{
    if s.len() == 0 {
        0
    } else {
        digits_value(s.drop_last()) * 10 + (s.last() as nat - '0' as nat) as nat
    }
}

/// Whether every character of `s` is an ASCII digit.
pub open spec fn all_digits(s: Seq<char>) -> bool {
    forall|k: int| 0 <= k < s.len() ==> '0' <= #[trigger] s[k] <= '9'
}

/// `usize::from_str`: an optional `+`, then one or more ASCII digits whose
/// value fits in a `usize`.
pub open spec fn parsed_index(s: Seq<char>) -> Option<nat> {
    let body = if s.len() > 0 && s[0] == '+' {
        s.drop_first()
    } else {
        s
    };
    if body.len() > 0 && all_digits(body) && digits_value(body) <= usize::MAX {
        Some(digits_value(body))
    } else {
        None
    }
}

/// Parses a decimal index, as `str::parse::<usize>` does.
pub fn parse_index(s: &str) -> (out: Option<usize>)
    ensures
        match parsed_index(s@) {
            Some(n) => out == Some(n as usize),
            None => out is None,
        },
{
    let cs = chars_of(s);
    let mut i: usize = 0;
    if cs.len() > 0 && cs[0] == '+' {
        i = 1;
    }
    let ghost body = if cs@.len() > 0 && cs@[0] == '+' {
        cs@.drop_first()
    } else {
        cs@
    };
    assert(body =~= cs@.skip(i as int));
    if i >= cs.len() {
        return None;
    }
    let mut value: usize = 0;
    let mut j: usize = i;
    while j < cs.len()
        invariant
            i <= j <= cs@.len(),
            cs@ == s@,
            body == cs@.skip(i as int),
            body == (if s@.len() > 0 && s@[0] == '+' { s@.drop_first() } else { s@ }),
            all_digits(cs@.subrange(i as int, j as int)),
            value as nat == digits_value(cs@.subrange(i as int, j as int)),
        decreases cs@.len() - j,
    {
        let c = cs[j];
        let ghost pre = cs@.subrange(i as int, j as int);
        assert(cs@.subrange(i as int, j + 1) =~= pre.push(c));
        assert(cs@.subrange(i as int, j + 1).drop_last() =~= pre);
        if !('0' <= c && c <= '9') {
            proof {
                assert(body[j - i] == cs@[j as int]);
                assert(!all_digits(body));
                assert(parsed_index(s@) is None);
            }
            return None;
        }
        let d = (c as u32 - '0' as u32) as usize;
        if value > (usize::MAX - d) / 10 {
            proof {
                assert(digits_value(pre.push(c)) == value * 10 + d);
                assert(value * 10 + d > usize::MAX) by (nonlinear_arith)
                    requires value > (usize::MAX - d) / 10, d <= 9;
                if all_digits(body) {
                    lemma_digits_value_prefix_le(body, j + 1 - i);
                    assert(body.take(j + 1 - i) =~= pre.push(c));
                    assert(digits_value(body) > usize::MAX);
                }
                assert(parsed_index(s@) is None);
            }
            return None;
        }
        assert(value * 10 + d <= usize::MAX) by (nonlinear_arith)
            requires value <= (usize::MAX - d) / 10, d <= 9;
        value = value * 10 + d;
        j = j + 1;
    }
    assert(cs@.subrange(i as int, cs@.len() as int) =~= body);
    Some(value)
}

proof fn lemma_digits_value_prefix_le(s: Seq<char>, n: int)
    requires
        0 <= n <= s.len(),
        all_digits(s),
    ensures
        digits_value(s.take(n)) <= digits_value(s),
    decreases s.len() - n,
{
    if n < s.len() {
        lemma_digits_value_prefix_le(s, n + 1);
        let t = s.take(n + 1);
        assert(t.drop_last() =~= s.take(n));
        assert(t.last() == s[n]);
        assert('0' <= s[n]);
    } else {
        assert(s.take(n) =~= s);
    }
}

/// The decimal text of an index parses back to it.
pub proof fn lemma_parse_decimal(n: nat)
    requires
        n <= usize::MAX,
    ensures
        parsed_index(decimal(n)) == Some(n),
    decreases n,
{
    lemma_decimal_value(n);
    lemma_decimal_digits(n);
    assert(decimal(n)[0] != '+');
}

proof fn lemma_digit_char_value(d: nat)
    requires
        d < 10,
    ensures
        crate::text::digit_char(d) as nat - '0' as nat == d,
        '0' <= crate::text::digit_char(d) <= '9',
{
}

proof fn lemma_decimal_value(n: nat)
    ensures
        digits_value(decimal(n)) == n,
    decreases n,
{
    lemma_digit_char_value(n % 10);
    reveal_with_fuel(digits_value, 2);
    if n >= 10 {
        lemma_decimal_value(n / 10);
        assert((n / 10) * 10 + n % 10 == n) by (nonlinear_arith);
        let d = decimal(n);
        assert(d.drop_last() =~= decimal(n / 10));
        assert(d.last() == crate::text::digit_char(n % 10));
    } else {
        assert(decimal(n).drop_last() =~= Seq::<char>::empty());
    }
}

/// The background index restored from its saved text: the number written
/// there when it names one of the `count` backgrounds, else the first.
pub open spec fn restored_bg(saved: Option<Seq<char>>, count: nat) -> usize {
    match saved {
        Some(t) => match parsed_index(t) {
            Some(n) => if n < count {
                n as usize
            } else {
                0
            },
            None => 0,
        },
        None => 0,
    }
}

/// The restored background index: the saved value when it parses and names
/// one of the `count` backgrounds, else the first.
pub fn restore_bg_idx(saved: Option<String>, count: usize) -> (out: usize)
    ensures
        out == restored_bg(opt_chars(saved), count as nat),
{
    match saved {
        Some(t) => match parse_index(t.as_str()) {
            Some(n) => if n < count { n } else { 0 },
            None => 0,
        },
        None => 0,
    }
}

/// `PathBuf::join` with a relative component, on Unix: a `/` goes between
/// unless the base is empty or already ends with one.
pub open spec fn path_join(base: Seq<char>, comp: Seq<char>) -> Seq<char> {
    if base.len() == 0 {
        comp
    } else if base.last() == '/' {
        base + comp
    } else {
        base.push('/') + comp
    }
}

pub fn join_path(base: String, comp: &str) -> (out: String)
    ensures
        out@ == path_join(base@, comp@),
{
    let cs = chars_of(base.as_str());
    let mut out = base;
    if cs.len() > 0 && cs[cs.len() - 1] != '/' {
        push_char(&mut out, '/');
    }
    out.append(comp);
    assert(cs@.len() > 0 ==> cs@.last() == cs@[cs@.len() - 1]);
    out
}

/// The characters of an optional string.
pub open spec fn opt_chars(o: Option<String>) -> Option<Seq<char>> {
    match o {
        Some(s) => Some(s@),
        None => None,
    }
}

/// The per-user base directory: the XDG variable when set, else
/// `$HOME/<fallback>`; none when neither is set.
pub open spec fn base_dir(xdg: Option<Seq<char>>, home: Option<Seq<char>>, fallback: Seq<char>) -> Option<Seq<char>> {
    match xdg {
        Some(x) => Some(x),
        None => match home {
            Some(h) => Some(path_join(h, fallback)),
            None => None,
        },
    }
}

/// The app's config directory, from `$XDG_CONFIG_HOME` and `$HOME`.
pub fn config_dir(xdg_config_home: Option<String>, home: Option<String>) -> (out: Option<String>)
    ensures
        match base_dir(opt_chars(xdg_config_home), opt_chars(home), ".config"@) {
            Some(b) => out matches Some(o) && o@ == path_join(b, "cosmic-cassette-deck"@),
            None => out is None,
        },
{
    let base = match xdg_config_home {
        Some(x) => x,
        None => match home {
            Some(h) => join_path(h, ".config"),
            None => return None,
        },
    };
    Some(join_path(base, "cosmic-cassette-deck"))
}

/// The state file's path, from `$XDG_CONFIG_HOME` and `$HOME`.
pub fn state_path(xdg_config_home: Option<String>, home: Option<String>) -> (out: Option<String>)
    ensures
        match base_dir(opt_chars(xdg_config_home), opt_chars(home), ".config"@) {
            Some(b) => out matches Some(o) && o@ == path_join(
                path_join(b, "cosmic-cassette-deck"@),
                "state"@,
            ),
            None => out is None,
        },
{
    match config_dir(xdg_config_home, home) {
        Some(d) => Some(join_path(d, "state")),
        None => None,
    }
}

/// The legacy file that held only the music folder, next to the state file.
pub fn legacy_music_dir_path(xdg_config_home: Option<String>, home: Option<String>) -> (out: Option<String>)
    ensures
        match base_dir(opt_chars(xdg_config_home), opt_chars(home), ".config"@) {
            Some(b) => out matches Some(o) && o@ == path_join(
                path_join(b, "cosmic-cassette-deck"@),
                "music-dir"@,
            ),
            None => out is None,
        },
{
    match config_dir(xdg_config_home, home) {
        Some(d) => Some(join_path(d, "music-dir")),
        None => None,
    }
}

/// A string with its leading and trailing whitespace removed (`str::trim`).
pub fn trimmed(s: &str) -> (out: String)
    ensures
        out@ == trim(s@),
{
    let cs = chars_of(s);
    let out = trim_range(&cs, 0, cs.len());
    assert(cs@.subrange(0, cs@.len() as int) =~= s@);
    out
}

} // verus!
