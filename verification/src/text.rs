use vstd::prelude::*;
use vstd::string::*;

verus! {

/// The deep view of a vector after a push.
pub proof fn lemma_deep_view_push<T: DeepView>(v: Vec<T>, w: Vec<T>, x: T)
    requires
        w@ == v@.push(x),
    ensures
        w.deep_view() == v.deep_view().push(x.deep_view()),
{
    assert(w.deep_view() =~= v.deep_view().push(x.deep_view()));
}

// ---------------------------------------------------------------------------
// Decimal text of an unsigned integer
// ---------------------------------------------------------------------------

/// The character for the decimal digit `d` (for `d < 10`).
pub open spec fn digit_char(d: nat) -> char {
    seq!['0', '1', '2', '3', '4', '5', '6', '7', '8', '9'][d as int]
}

/// The decimal text of `n`, most significant digit first, no leading zeros.
pub open spec fn decimal_text(n: nat) -> Seq<char>
    decreases n,
{
    if n < 10 {
        seq![digit_char(n)]
    } else {
        decimal_text(n / 10).push(digit_char(n % 10))
    }
}

fn digit_str(d: usize) -> (s: &'static str)
    requires
        d < 10,
    ensures
        s@ == seq![digit_char(d as nat)],
{
    if d == 0 {
        proof { reveal_strlit("0"); }
        assert("0"@ =~= seq!['0']);
        "0"
    } else if d == 1 {
        proof { reveal_strlit("1"); }
        assert("1"@ =~= seq!['1']);
        "1"
    } else if d == 2 {
        proof { reveal_strlit("2"); }
        assert("2"@ =~= seq!['2']);
        "2"
    } else if d == 3 {
        proof { reveal_strlit("3"); }
        assert("3"@ =~= seq!['3']);
        "3"
    } else if d == 4 {
        proof { reveal_strlit("4"); }
        assert("4"@ =~= seq!['4']);
        "4"
    } else if d == 5 {
        proof { reveal_strlit("5"); }
        assert("5"@ =~= seq!['5']);
        "5"
    } else if d == 6 {
        proof { reveal_strlit("6"); }
        assert("6"@ =~= seq!['6']);
        "6"
    } else if d == 7 {
        proof { reveal_strlit("7"); }
        assert("7"@ =~= seq!['7']);
        "7"
    } else if d == 8 {
        proof { reveal_strlit("8"); }
        assert("8"@ =~= seq!['8']);
        "8"
    } else {
        proof { reveal_strlit("9"); }
        assert("9"@ =~= seq!['9']);
        "9"
    }
}

/// Appends the decimal text of `n` to `out`.
pub fn append_decimal(out: &mut String, n: usize)
    ensures
        final(out)@ == old(out)@ + decimal_text(n as nat),
    decreases n,
{
    if n >= 10 {
        append_decimal(out, n / 10);
    }
    out.append(digit_str(n % 10));
    proof {
        if n >= 10 {
            assert(decimal_text(n as nat) == decimal_text((n / 10) as nat).push(
                digit_char((n % 10) as nat),
            ));
            assert(old(out)@ + decimal_text((n / 10) as nat) + seq![digit_char((n % 10) as nat)]
                =~= old(out)@ + decimal_text(n as nat));
        }
    }
}

/// The decimal text of `n`, as `n.to_string()` writes it.
pub fn decimal_string(n: usize) -> (s: String)
    ensures
        s@ == decimal_text(n as nat),
{
    let mut s = String::new();
    append_decimal(&mut s, n);
    assert(s@ =~= decimal_text(n as nat));
    s
}

// ---------------------------------------------------------------------------
// Whitespace trimming
// ---------------------------------------------------------------------------

/// Whether `c` has the Unicode `White_Space` property, the set that
/// `char::is_whitespace` and `str::trim` go by.
pub open spec fn is_white_space(c: char) -> bool {
    let n = c as int;
    ||| 0x9 <= n <= 0xD
    ||| n == 0x20
    ||| n == 0x85
    ||| n == 0xA0
    ||| n == 0x1680
    ||| 0x2000 <= n <= 0x200A
    ||| n == 0x2028
    ||| n == 0x2029
    ||| n == 0x202F
    ||| n == 0x205F
    ||| n == 0x3000
}

/// `s` without its leading whitespace.
pub open spec fn trim_front(s: Seq<char>) -> Seq<char>
    decreases s.len(),
{
    if s.len() > 0 && is_white_space(s[0]) {
        trim_front(s.drop_first())
    } else {
        s
    }
}

/// `s` without its trailing whitespace.
pub open spec fn trim_back(s: Seq<char>) -> Seq<char>
    decreases s.len(),
{
    if s.len() > 0 && is_white_space(s.last()) {
        trim_back(s.drop_last())
    } else {
        s
    }
}

/// The text of `s` with leading and trailing whitespace removed.
pub open spec fn trimmed(s: Seq<char>) -> Seq<char> {
    trim_back(trim_front(s))
}

/// Whether `c` is whitespace, as `char::is_whitespace` decides it.
pub fn is_white_space_char(c: char) -> (r: bool)
    ensures
        r == is_white_space(c),
{
    let n: u32 = c as u32;
    (0x9 <= n && n <= 0xD) || n == 0x20 || n == 0x85 || n == 0xA0 || n == 0x1680 || (0x2000 <= n
        && n <= 0x200A) || n == 0x2028 || n == 0x2029 || n == 0x202F || n == 0x205F || n == 0x3000
}

/// `s` with leading and trailing whitespace removed, as `str::trim` gives it.
pub fn trim_str<'a>(s: &'a str) -> (r: &'a str)
    ensures
        r@ == trimmed(s@),
{
    let n = s.unicode_len();
    let mut start: usize = 0;
    assert(s@.subrange(0, n as int) =~= s@);
    while start < n
        invariant
            n == s@.len(),
            start <= n,
            trim_front(s@) == trim_front(s@.subrange(start as int, n as int)),
        ensures
            start <= n,
            trim_front(s@) == s@.subrange(start as int, n as int),
        decreases n - start,
    {
        let c = s.get_char(start);
        if !is_white_space_char(c) {
            break;
        }
        assert(s@.subrange(start as int, n as int).drop_first() =~= s@.subrange(
            start as int + 1,
            n as int,
        ));
        start = start + 1;
    }
    proof {
        if start == n {
            assert(s@.subrange(start as int, n as int).len() == 0);
        }
    }
    let mut end: usize = n;
    while end > start
        invariant
            n == s@.len(),
            start <= end <= n,
            trimmed(s@) == trim_back(s@.subrange(start as int, end as int)),
        ensures
            start <= end <= n,
            trimmed(s@) == s@.subrange(start as int, end as int),
        decreases end - start,
    {
        let c = s.get_char(end - 1);
        if !is_white_space_char(c) {
            break;
        }
        assert(s@.subrange(start as int, end as int).drop_last() =~= s@.subrange(
            start as int,
            end - 1,
        ));
        end = end - 1;
    }
    s.substring_char(start, end)
}

// ---------------------------------------------------------------------------
// Characters of a string
// ---------------------------------------------------------------------------

/// The characters of `s`, in order.
pub fn chars_of(s: &str) -> (v: Vec<char>)
    ensures
        v@ == s@,
{
    let n = s.unicode_len();
    let mut v: Vec<char> = Vec::new();
    let mut i: usize = 0;
    while i < n
        invariant
            n == s@.len(),
            i <= n,
            v@ == s@.take(i as int),
        decreases n - i,
    {
        let c = s.get_char(i);
        v.push(c);
        i = i + 1;
        assert(v@ =~= s@.take(i as int));
    }
    assert(s@.take(n as int) =~= s@);
    v
}

/// Whether `v[start..end]` is exactly `t`.
pub fn range_equals(v: &Vec<char>, start: usize, end: usize, t: &Vec<char>) -> (r: bool)
    requires
        start <= end <= v@.len(),
    ensures
        r == (v@.subrange(start as int, end as int) == t@),
{
    if end - start != t.len() {
        assert(v@.subrange(start as int, end as int).len() != t@.len());
        return false;
    }
    let mut k: usize = 0;
    while k < t.len()
        invariant
            start <= end <= v@.len(),
            end - start == t@.len(),
            k <= t@.len(),
            forall|x: int| 0 <= x < k ==> v@[start + x] == t@[x],
        decreases t@.len() - k,
    {
        if v[start + k] != t[k] {
            assert(v@.subrange(start as int, end as int)[k as int] != t@[k as int]);
            return false;
        }
        k = k + 1;
    }
    assert(v@.subrange(start as int, end as int) =~= t@);
    true
}

// ---------------------------------------------------------------------------
// Splitting on a separator
// ---------------------------------------------------------------------------

/// The pieces of `s` between occurrences of `sep`, as `str::split(sep)` yields
/// them: one more piece than there are separators, empty pieces included.
pub open spec fn split_on(s: Seq<char>, sep: char) -> Seq<Seq<char>>
    decreases s.len(),
{
    if s.len() == 0 {
        seq![Seq::<char>::empty()]
    } else {
        let init = split_on(s.drop_last(), sep);
        if s.last() == sep {
            init.push(Seq::<char>::empty())
        } else {
            init.update(init.len() - 1, init.last().push(s.last()))
        }
    }
}

/// One step of a left-to-right scan: `done` holds the finished pieces of
/// `s[..i]` and `s[start..i]` is the piece in progress.
pub proof fn lemma_split_step(s: Seq<char>, sep: char, i: int, start: int, done: Seq<Seq<char>>)
    requires
        0 <= start <= i < s.len(),
        split_on(s.take(i), sep) == done.push(s.subrange(start, i)),
    ensures
        s[i] == sep ==> split_on(s.take(i + 1), sep) == done.push(s.subrange(start, i)).push(
            s.subrange(i + 1, i + 1),
        ),
        s[i] != sep ==> split_on(s.take(i + 1), sep) == done.push(s.subrange(start, i + 1)),
{
    let t = s.take(i + 1);
    assert(t.drop_last() =~= s.take(i));
    assert(t.last() == s[i]);
    if s[i] == sep {
        assert(s.subrange(i + 1, i + 1) =~= Seq::<char>::empty());
    } else {
        let init = split_on(s.take(i), sep);
        assert(init.last() == s.subrange(start, i));
        assert(s.subrange(start, i).push(s[i]) =~= s.subrange(start, i + 1));
        assert(init.update(init.len() - 1, init.last().push(s[i])) =~= done.push(
            s.subrange(start, i + 1),
        ));
    }
}

/// Whether `t` is one of the `'/'`-separated pieces of `p`.
pub fn has_segment(p: &Vec<char>, t: &Vec<char>) -> (r: bool)
    ensures
        r == split_on(p@, '/').contains(t@),
{
    let n = p.len();
    let mut start: usize = 0;
    let mut i: usize = 0;
    let mut found = false;
    let ghost mut done: Seq<Seq<char>> = Seq::empty();
    assert(p@.take(0) =~= Seq::<char>::empty());
    assert(p@.subrange(0, 0) =~= Seq::<char>::empty());
    assert(split_on(p@.take(0), '/') =~= done.push(p@.subrange(0, 0)));
    while i < n
        invariant
            n == p@.len(),
            start <= i <= n,
            split_on(p@.take(i as int), '/') == done.push(p@.subrange(start as int, i as int)),
            found == done.contains(t@),
        decreases n - i,
    {
        proof { lemma_split_step(p@, '/', i as int, start as int, done); }
        if p[i] == '/' {
            let m = range_equals(p, start, i, t);
            proof {
                let piece = p@.subrange(start as int, i as int);
                let nd = done.push(piece);
                assert(nd.contains(t@) == (done.contains(t@) || piece == t@)) by {
                    if done.contains(t@) {
                        let k = choose|k: int| 0 <= k < done.len() && done[k] == t@;
                        assert(nd[k] == t@);
                    }
                    if piece == t@ {
                        assert(nd[done.len() as int] == t@);
                    }
                    if nd.contains(t@) {
                        let k = choose|k: int| 0 <= k < nd.len() && nd[k] == t@;
                        if k < done.len() {
                            assert(done[k] == t@);
                        }
                    }
                }
                done = nd;
            }
            found = found || m;
            start = i + 1;
        }
        i = i + 1;
    }
    let m = range_equals(p, start, n, t);
    proof {
        assert(p@.take(n as int) =~= p@);
        let piece = p@.subrange(start as int, n as int);
        let all = done.push(piece);
        assert(all.contains(t@) == (done.contains(t@) || piece == t@)) by {
            if done.contains(t@) {
                let k = choose|k: int| 0 <= k < done.len() && done[k] == t@;
                assert(all[k] == t@);
            }
            if piece == t@ {
                assert(all[done.len() as int] == t@);
            }
            if all.contains(t@) {
                let k = choose|k: int| 0 <= k < all.len() && all[k] == t@;
                if k < done.len() {
                    assert(done[k] == t@);
                }
            }
        }
    }
    found || m
}

// ---------------------------------------------------------------------------
// Separator normalisation
// ---------------------------------------------------------------------------

/// `s` with every backslash replaced by a forward slash.
pub open spec fn forward_slashes(s: Seq<char>) -> Seq<char> {
    Seq::new(s.len(), |k: int| if s[k] == '\\' { '/' } else { s[k] })
}

/// Replaces every `'\\'` in `s` by `'/'`, as `s.replace('\\', "/")` does.
pub fn normalize_separators(s: &str) -> (r: String)
    ensures
        r@ == forward_slashes(s@),
{
    let v = chars_of(s);
    let n = v.len();
    let mut out = String::new();
    let mut start: usize = 0;
    let mut i: usize = 0;
    proof { reveal_strlit("/"); }
    assert("/"@ =~= seq!['/']);
    while i < n
        invariant
            n == s@.len(),
            v@ == s@,
            start <= i <= n,
            out@ == forward_slashes(s@).take(start as int),
            forall|k: int| start <= k < i ==> s@[k] != '\\',
            "/"@ == seq!['/'],
        decreases n - i,
    {
        if v[i] == '\\' {
            let piece = s.substring_char(start, i);
            out.append(piece);
            out.append("/");
            proof {
                assert(forward_slashes(s@).take(i as int + 1) =~= forward_slashes(s@).take(
                    start as int,
                ) + s@.subrange(start as int, i as int) + seq!['/']);
            }
            start = i + 1;
        }
        i = i + 1;
    }
    let piece = s.substring_char(start, n);
    out.append(piece);
    assert(out@ =~= forward_slashes(s@));
    out
}

// ---------------------------------------------------------------------------
// Lines
// ---------------------------------------------------------------------------

/// A line's text without the `'\r'` of a `"\r\n"` terminator.
pub open spec fn strip_cr(p: Seq<char>) -> Seq<char> {
    if p.len() > 0 && p.last() == '\r' {
        p.drop_last()
    } else {
        p
    }
}

/// The lines of `s`, as `str::lines` yields them: split at `'\n'`, a `'\r'`
/// just before a `'\n'` dropped, and no empty line after a final `'\n'`.
pub open spec fn lines_of(s: Seq<char>) -> Seq<Seq<char>> {
    let parts = split_on(s, '\n');
    let full = Seq::new((parts.len() - 1) as nat, |k: int| strip_cr(parts[k]));
    if parts.last().len() == 0 {
        full
    } else {
        full.push(parts.last())
    }
}

/// The lines of `s`, each as an owned string.
pub fn split_lines(s: &str) -> (lines: Vec<String>)
    ensures
        lines.deep_view() == lines_of(s@),
{
    let v = chars_of(s);
    let n = v.len();
    let mut lines: Vec<String> = Vec::new();
    let mut start: usize = 0;
    let mut i: usize = 0;
    let ghost mut done: Seq<Seq<char>> = Seq::empty();
    assert(s@.take(0) =~= Seq::<char>::empty());
    assert(s@.subrange(0, 0) =~= Seq::<char>::empty());
    assert(split_on(s@.take(0), '\n') =~= done.push(s@.subrange(0, 0)));
    while i < n
        invariant
            n == s@.len(),
            v@ == s@,
            start <= i <= n,
            split_on(s@.take(i as int), '\n') == done.push(s@.subrange(start as int, i as int)),
            lines.deep_view() == Seq::new(done.len(), |k: int| strip_cr(done[k])),
        decreases n - i,
    {
        proof { lemma_split_step(s@, '\n', i as int, start as int, done); }
        if v[i] == '\n' {
            let end = if i > start && v[i - 1] == '\r' {
                i - 1
            } else {
                i
            };
            let line = s.substring_char(start, end).to_owned();
            let ghost old_lines = lines.deep_view();
            lines.push(line);
            proof {
                let piece = s@.subrange(start as int, i as int);
                assert(line@ =~= strip_cr(piece));
                let nd = done.push(piece);
                assert(lines.deep_view() =~= Seq::new(nd.len(), |k: int| strip_cr(nd[k]))) by {
                    assert(lines.deep_view() =~= old_lines.push(line@));
                }
                done = nd;
            }
            start = i + 1;
        }
        i = i + 1;
    }
    proof {
        assert(s@.take(n as int) =~= s@);
    }
    let last_piece_len = n - start;
    if last_piece_len > 0 {
        let line = s.substring_char(start, n).to_owned();
        let ghost old_lines = lines.deep_view();
        lines.push(line);
        proof {
            let parts = split_on(s@, '\n');
            assert(parts =~= done.push(s@.subrange(start as int, n as int)));
            assert(lines.deep_view() =~= old_lines.push(line@));
            assert(lines.deep_view() =~= lines_of(s@));
        }
    } else {
        proof {
            let parts = split_on(s@, '\n');
            assert(parts =~= done.push(s@.subrange(start as int, n as int)));
            assert(lines.deep_view() =~= lines_of(s@));
        }
    }
    lines
}

/// The pieces of `s` between occurrences of `sep`, as `s.split(sep)` yields
/// them.
pub fn split_on_char(s: &str, sep: char) -> (pieces: Vec<String>)
    ensures
        pieces.deep_view() == split_on(s@, sep),
{
    let v = chars_of(s);
    let n = v.len();
    let mut pieces: Vec<String> = Vec::new();
    let mut start: usize = 0;
    let mut i: usize = 0;
    let ghost mut done: Seq<Seq<char>> = Seq::empty();
    assert(s@.take(0) =~= Seq::<char>::empty());
    assert(s@.subrange(0, 0) =~= Seq::<char>::empty());
    assert(split_on(s@.take(0), sep) =~= done.push(s@.subrange(0, 0)));
    while i < n
        invariant
            n == s@.len(),
            v@ == s@,
            start <= i <= n,
            split_on(s@.take(i as int), sep) == done.push(s@.subrange(start as int, i as int)),
            pieces.deep_view() == done,
        decreases n - i,
    {
        proof { lemma_split_step(s@, sep, i as int, start as int, done); }
        if v[i] == sep {
            let piece = s.substring_char(start, i).to_owned();
            let ghost before = pieces;
            pieces.push(piece);
            proof {
                lemma_deep_view_push(before, pieces, piece);
                done = done.push(s@.subrange(start as int, i as int));
            }
            start = i + 1;
        }
        i = i + 1;
    }
    let piece = s.substring_char(start, n).to_owned();
    let ghost before = pieces;
    pieces.push(piece);
    proof {
        lemma_deep_view_push(before, pieces, piece);
        assert(s@.take(n as int) =~= s@);
    }
    pieces
}

} // verus!
