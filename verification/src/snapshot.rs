//! Checks that guard snapshot export and import: human sign-off and safe relative paths.
use vstd::prelude::*;

use crate::error::ThermalError;
use crate::history::join;
use crate::text::{owned, starts_with};

verus! {

/// Unicode `White_Space`, which `char::is_whitespace` tests.
pub open spec fn is_ws(c: char) -> bool {
    ('\u{9}' <= c <= '\u{d}') || c == ' ' || c == '\u{85}' || c == '\u{a0}' || c == '\u{1680}'
        || ('\u{2000}' <= c <= '\u{200a}') || c == '\u{2028}' || c == '\u{2029}' || c == '\u{202f}'
        || c == '\u{205f}' || c == '\u{3000}'
}

fn is_ws_exec(c: char) -> (r: bool)
    ensures
        r == is_ws(c),
{
    ('\u{9}' <= c && c <= '\u{d}') || c == ' ' || c == '\u{85}' || c == '\u{a0}' || c == '\u{1680}'
        || ('\u{2000}' <= c && c <= '\u{200a}') || c == '\u{2028}' || c == '\u{2029}' || c
        == '\u{202f}' || c == '\u{205f}' || c == '\u{3000}'
}

/// `s` without leading whitespace.
pub open spec fn trim_start(s: Seq<char>) -> Seq<char>
    decreases s.len(),
{
    if s.len() > 0 && is_ws(s[0]) {
        trim_start(s.skip(1))
    } else {
        s
    }
}

/// `s` without trailing whitespace.
pub open spec fn trim_end(s: Seq<char>) -> Seq<char>
    decreases s.len(),
{
    if s.len() > 0 && is_ws(s.last()) {
        trim_end(s.drop_last())
    } else {
        s
    }
}

/// `s` without leading or trailing whitespace, as `str::trim` gives it.
pub open spec fn trimmed(s: Seq<char>) -> Seq<char> {
    trim_end(trim_start(s))
}

proof fn lemma_trim_start_skip(s: Seq<char>, a: int)
    requires
        0 <= a <= s.len(),
        forall|j: int| 0 <= j < a ==> is_ws(s[j]),
    ensures
        trim_start(s) == trim_start(s.skip(a)),
    decreases a,
{
    if a > 0 {
        assert(s.skip(1).skip(a - 1) =~= s.skip(a));
        lemma_trim_start_skip(s.skip(1), a - 1);
    } else {
        assert(s.skip(0) =~= s);
    }
}

proof fn lemma_trim_end_take(s: Seq<char>, b: int)
    requires
        0 <= b <= s.len(),
        forall|j: int| b <= j < s.len() ==> is_ws(s[j]),
    ensures
        trim_end(s) == trim_end(s.take(b)),
    decreases s.len() - b,
{
    if b < s.len() {
        assert(s.drop_last().take(b) =~= s.take(b));
        lemma_trim_end_take(s.drop_last(), b);
    } else {
        assert(s.take(b) =~= s);
    }
}

/// Removes leading and trailing whitespace.
pub fn trim(s: &str) -> (r: &str)
    ensures
        r@ == trimmed(s@),
{
    let n = s.unicode_len();
    let mut a: usize = 0;
    while a < n && is_ws_exec(s.get_char(a))
        invariant
            n == s@.len(),
            a <= n,
            forall|j: int| 0 <= j < a ==> is_ws(s@[j]),
        decreases n - a,
    {
        a = a + 1;
    }
    let ghost t = s@.skip(a as int);
    proof {
        lemma_trim_start_skip(s@, a as int);
        if a < n {
            assert(t[0] == s@[a as int]);
        }
    }
    assert(trim_start(s@) == t);
    let mut b: usize = n;
    while b > a && is_ws_exec(s.get_char(b - 1))
        invariant
            n == s@.len(),
            a <= b <= n,
            forall|j: int| b <= j < n ==> is_ws(s@[j]),
        decreases b,
    {
        b = b - 1;
    }
    proof {
        assert forall|j: int| b - a <= j < t.len() implies is_ws(t[j]) by {
            assert(t[j] == s@[a + j]);
        }
        lemma_trim_end_take(t, b - a);
        let u = t.take(b - a);
        if b > a {
            assert(u.last() == s@[b - 1]);
        }
    }
    let r = s.substring_char(a, b);
    assert(r@ =~= t.take(b - a));
    r
}

/// Refuses a snapshot action without human approval or without a sign-off reason, and
/// gives the reason trimmed.
pub fn check_signoff(signoff_reason: &str, approved_by_human: bool) -> (r: Result<String, ThermalError>)
    ensures
        !approved_by_human ==> r matches Err(ThermalError::HumanApprovalRequired),
        approved_by_human && trimmed(signoff_reason@).len() == 0 ==> r matches Err(ThermalError::EmptySignoffReason),
        approved_by_human && trimmed(signoff_reason@).len() > 0 ==> (r matches Ok(t) && t@ == trimmed(signoff_reason@)),
{
    if !approved_by_human {
        return Err(ThermalError::HumanApprovalRequired);
    }
    let t = trim(signoff_reason);
    if t.unicode_len() == 0 {
        return Err(ThermalError::EmptySignoffReason);
    }
    Ok(owned(t))
}

/// The pieces of `s` between `/` separators, empty pieces included.
pub open spec fn slash_pieces(s: Seq<char>) -> Seq<Seq<char>>
    decreases s.len(),
{
    if s.len() == 0 {
        seq![Seq::empty()]
    } else {
        let p = slash_pieces(s.drop_last());
        if s.last() == '/' {
            p.push(Seq::empty())
        } else {
            p.update(p.len() - 1, p.last().push(s.last()))
        }
    }
}

proof fn lemma_slash_pieces_nonempty(s: Seq<char>)
    ensures
        slash_pieces(s).len() >= 1,
    decreases s.len(),
{
    if s.len() > 0 {
        lemma_slash_pieces_nonempty(s.drop_last());
    }
}

/// Path components that name something: pieces that are neither empty nor `.`.
pub open spec fn named_segments(pieces: Seq<Seq<char>>) -> Seq<Seq<char>>
    decreases pieces.len(),
{
    if pieces.len() == 0 {
        Seq::empty()
    } else {
        let prev = named_segments(pieces.drop_last());
        let x = pieces.last();
        if x.len() > 0 && x != "."@ {
            prev.push(x)
        } else {
            prev
        }
    }
}

/// A relative path made safe to join under a directory: absolute paths, paths starting at
/// `.`, paths with a `..` component and paths with no component are refused; otherwise the
/// components are rejoined with single `/`.
pub open spec fn sanitized_path(s: Seq<char>) -> Option<Seq<char>> {
    let segs = named_segments(slash_pieces(s));
    if starts_with(s, "/"@) {
        None
    } else if s == "."@ || starts_with(s, "./"@) {
        None
    } else if segs.contains(".."@) || segs.len() == 0 {
        None
    } else {
        Some(join(segs, "/"@))
    }
}

/// Validates a relative path from a snapshot manifest.
pub fn sanitize_relative_path(input: &str) -> (r: Result<String, ThermalError>)
    ensures
        r is Ok <==> sanitized_path(input@) is Some,
        r matches Ok(p) ==> p@ == sanitized_path(input@).unwrap(),
        r matches Err(e) ==> e matches ThermalError::InvalidSnapshotPath(v) && v@ == input@,
{
    let n = input.unicode_len();
    let ghost s = input@;
    proof {
        reveal_strlit("/");
        reveal_strlit(".");
        reveal_strlit("./");
        reveal_strlit("..");
    }
    if n > 0 && input.get_char(0) == '/' {
        assert(s.subrange(0, 1) =~= "/"@);
        return Err(ThermalError::InvalidSnapshotPath(owned(input)));
    }
    proof {
        if starts_with(s, "/"@) {
            assert(s.subrange(0, 1)[0] == s[0]);
        }
    }
    if n > 0 && input.get_char(0) == '.' && (n == 1 || input.get_char(1) == '/') {
        proof {
            if n == 1 {
                assert(s =~= "."@);
            } else {
                assert(s.subrange(0, 2) =~= "./"@);
            }
        }
        return Err(ThermalError::InvalidSnapshotPath(owned(input)));
    }
    proof {
        if s == "."@ {
            assert(s[0] == '.');
        }
        if starts_with(s, "./"@) {
            assert(s.subrange(0, 2)[0] == '.');
            assert(s.subrange(0, 2)[1] == '/');
        }
    }
    let mut segs: Vec<String> = Vec::new();
    let mut cur = String::new();
    let mut has_parent = false;
    let mut i: usize = 0;
    while i < n
        invariant
            n == s.len(),
            s == input@,
            i <= n,
            slash_pieces(s.take(i as int)).len() >= 1,
            crate::history::strings_view(segs@) == named_segments(slash_pieces(s.take(i as int)).drop_last()),
            cur@ == slash_pieces(s.take(i as int)).last(),
            has_parent == named_segments(slash_pieces(s.take(i as int)).drop_last()).contains(".."@),
        decreases n - i,
    {
        let c = input.get_char(i);
        let ghost p = slash_pieces(s.take(i as int));
        proof {
            assert(s.take(i + 1).drop_last() =~= s.take(i as int));
            assert(s.take(i + 1).last() == c);
            lemma_slash_pieces_nonempty(s.take(i + 1));
        }
        if c == '/' {
            let ghost old_segs = crate::history::strings_view(segs@);
            let keep = cur.as_str().unicode_len() > 0 && !crate::text::str_eq(cur.as_str(), ".");
            if keep {
                if crate::text::str_eq(cur.as_str(), "..") {
                    has_parent = true;
                }
                segs.push(cur);
            }
            cur = String::new();
            proof {
                let np = p.push(Seq::empty());
                assert(np.drop_last() =~= p);
                assert(p =~= p.drop_last().push(p.last()));
                assert(crate::history::strings_view(segs@) =~= named_segments(np.drop_last()));
                if keep {
                    assert(named_segments(p) == old_segs.push(p.last()));
                    assert(named_segments(p).last() == p.last());
                    if named_segments(p).contains(".."@) && !old_segs.contains(".."@) {
                        let w = choose|w: int| 0 <= w < named_segments(p).len() && named_segments(p)[w] == ".."@;
                        assert(w == old_segs.len());
                    }
                    if old_segs.contains(".."@) {
                        let w = choose|w: int| 0 <= w < old_segs.len() && old_segs[w] == ".."@;
                        assert(named_segments(p)[w] == ".."@);
                    }
                } else {
                    assert(named_segments(p) == old_segs);
                }
            }
        } else {
            let piece = input.substring_char(i, i + 1);
            assert(piece@ =~= seq![c]);
            cur.append(piece);
            proof {
                let np = p.update(p.len() - 1, p.last().push(c));
                assert(np.drop_last() =~= p.drop_last());
                assert(cur@ =~= np.last());
            }
        }
        i = i + 1;
    }
    assert(s.take(n as int) =~= s);
    let ghost p = slash_pieces(s);
    let ghost old_segs = crate::history::strings_view(segs@);
    let keep = cur.as_str().unicode_len() > 0 && !crate::text::str_eq(cur.as_str(), ".");
    if keep {
        if crate::text::str_eq(cur.as_str(), "..") {
            has_parent = true;
        }
        segs.push(cur);
    }
    proof {
        assert(p =~= p.drop_last().push(p.last()));
        assert(crate::history::strings_view(segs@) =~= named_segments(p));
        if keep {
            if named_segments(p).contains(".."@) && !old_segs.contains(".."@) {
                let w = choose|w: int| 0 <= w < named_segments(p).len() && named_segments(p)[w] == ".."@;
                assert(w == old_segs.len());
            }
            if old_segs.contains(".."@) {
                let w = choose|w: int| 0 <= w < old_segs.len() && old_segs[w] == ".."@;
                assert(named_segments(p)[w] == ".."@);
            }
        }
    }
    if has_parent || segs.len() == 0 {
        return Err(ThermalError::InvalidSnapshotPath(owned(input)));
    }
    Ok(crate::history::join_strings(&segs, "/"))
}

proof fn lemma_slash_pieces_append(x: Seq<char>, y: Seq<char>)
    requires
        forall|k: int| 0 <= k < y.len() ==> y[k] != '/',
    ensures
        slash_pieces(x + y).len() == slash_pieces(x).len(),
        slash_pieces(x + y) == slash_pieces(x).update(
            slash_pieces(x).len() - 1,
            slash_pieces(x).last() + y,
        ),
    decreases y.len(),
{
    lemma_slash_pieces_nonempty(x);
    let p = slash_pieces(x);
    if y.len() == 0 {
        assert(x + y =~= x);
        assert(p.last() + y =~= p.last());
        assert(p.update(p.len() - 1, p.last() + y) =~= p);
    } else {
        let y0 = y.drop_last();
        lemma_slash_pieces_append(x, y0);
        assert((x + y).drop_last() =~= x + y0);
        assert((x + y).last() == y.last());
        let q = slash_pieces(x + y0);
        assert(q.last() == p.last() + y0);
        assert((p.last() + y0).push(y.last()) =~= p.last() + y);
        assert(slash_pieces(x + y) =~= p.update(p.len() - 1, p.last() + y));
    }
}

proof fn lemma_slash_pieces_of_join(l: Seq<Seq<char>>)
    requires
        l.len() >= 1,
        forall|i: int, k: int| 0 <= i < l.len() && 0 <= k < l[i].len() ==> #[trigger] l[i][k] != '/',
    ensures
        slash_pieces(join(l, "/"@)) == l,
    decreases l.len(),
{
    reveal_strlit("/");
    if l.len() == 1 {
        let e: Seq<char> = Seq::empty();
        lemma_slash_pieces_append(e, l[0]);
        assert(e + l[0] =~= l[0]);
        assert(slash_pieces(e) =~= seq![e]);
        assert(e + l[0] =~= l[0]);
        assert(seq![e].update(0, e + l[0]) =~= l);
    } else {
        let l0 = l.drop_last();
        lemma_slash_pieces_of_join(l0);
        let x = join(l0, "/"@) + "/"@;
        assert(x.drop_last() =~= join(l0, "/"@));
        assert(x.last() == '/');
        assert(slash_pieces(x) == l0.push(Seq::empty()));
        lemma_slash_pieces_append(x, l.last());
        assert(join(l, "/"@) == x + l.last());
        let e: Seq<char> = Seq::empty();
        assert(e + l.last() =~= l.last());
        assert(l0.push(e).update(l0.len() as int, e + l.last()) =~= l);
    }
}

proof fn lemma_no_slash_in_pieces(s: Seq<char>)
    ensures
        forall|i: int, k: int|
            0 <= i < slash_pieces(s).len() && 0 <= k < slash_pieces(s)[i].len() ==> #[trigger] slash_pieces(s)[i][k] != '/',
    decreases s.len(),
{
    if s.len() > 0 {
        lemma_no_slash_in_pieces(s.drop_last());
        lemma_slash_pieces_nonempty(s.drop_last());
        let p = slash_pieces(s.drop_last());
        let cur = slash_pieces(s);
        assert forall|i: int, k: int| 0 <= i < cur.len() && 0 <= k < cur[i].len() implies #[trigger] cur[i][k] != '/' by {
            if s.last() == '/' {
                if i < p.len() {
                    assert(cur[i] == p[i]);
                }
            } else {
                if i < p.len() - 1 {
                    assert(cur[i] == p[i]);
                } else {
                    assert(cur[i] == p.last().push(s.last()));
                    if k < p.last().len() {
                        assert(cur[i][k] == p[p.len() - 1][k]);
                    }
                }
            }
        }
    }
}

proof fn lemma_named_segments_props(pieces: Seq<Seq<char>>)
    ensures
        forall|i: int| 0 <= i < named_segments(pieces).len() ==> (#[trigger] named_segments(pieces)[i]).len() > 0
            && named_segments(pieces)[i] != "."@,
        (forall|i: int, k: int| 0 <= i < pieces.len() && 0 <= k < pieces[i].len() ==> #[trigger] pieces[i][k] != '/')
            ==> (forall|i: int, k: int|
            0 <= i < named_segments(pieces).len() && 0 <= k < named_segments(pieces)[i].len() ==> #[trigger] named_segments(pieces)[i][k] != '/'),
        named_segments(pieces).len() <= pieces.len(),
    decreases pieces.len(),
{
    if pieces.len() > 0 {
        let p0 = pieces.drop_last();
        lemma_named_segments_props(p0);
        let prev = named_segments(p0);
        let cur = named_segments(pieces);
        assert forall|i: int| 0 <= i < cur.len() implies (#[trigger] cur[i]).len() > 0 && cur[i] != "."@ by {
            if i < prev.len() {
                assert(cur[i] == prev[i]);
            }
        }
        if forall|i: int, k: int| 0 <= i < pieces.len() && 0 <= k < pieces[i].len() ==> #[trigger] pieces[i][k] != '/' {
            assert forall|i: int, k: int| 0 <= i < p0.len() && 0 <= k < p0[i].len() implies #[trigger] p0[i][k] != '/' by {
                assert(p0[i] == pieces[i]);
                assert(pieces[i][k] != '/');
            }
            assert forall|i: int, k: int| 0 <= i < cur.len() && 0 <= k < cur[i].len() implies #[trigger] cur[i][k] != '/' by {
                if i < prev.len() {
                    assert(cur[i] == prev[i]);
                    assert(prev[i][k] != '/');
                } else {
                    assert(cur[i] == pieces.last());
                    assert(pieces[pieces.len() - 1][k] != '/');
                }
            }
        }
    }
}

proof fn lemma_named_segments_fixed(l: Seq<Seq<char>>)
    requires
        forall|i: int| 0 <= i < l.len() ==> (#[trigger] l[i]).len() > 0 && l[i] != "."@,
    ensures
        named_segments(l) == l,
    decreases l.len(),
{
    if l.len() > 0 {
        lemma_named_segments_fixed(l.drop_last());
        assert(l.drop_last().push(l.last()) =~= l);
    }
}

proof fn lemma_join_shape(l: Seq<Seq<char>>)
    requires
        l.len() >= 1,
    ensures
        join(l, "/"@).len() >= l[0].len(),
        join(l, "/"@).subrange(0, l[0].len() as int) == l[0],
        l.len() >= 2 ==> join(l, "/"@).len() > l[0].len() && join(l, "/"@)[l[0].len() as int] == '/',
    decreases l.len(),
{
    reveal_strlit("/");
    if l.len() == 1 {
        assert(join(l, "/"@).subrange(0, l[0].len() as int) =~= l[0]);
    } else {
        let l0 = l.drop_last();
        lemma_join_shape(l0);
        let j0 = join(l0, "/"@);
        assert(join(l, "/"@) == j0 + "/"@ + l.last());
        assert(l0[0] == l[0]);
        assert(join(l, "/"@).subrange(0, l[0].len() as int) =~= j0.subrange(0, l[0].len() as int));
        if l0.len() == 1 {
            assert(j0 == l[0]);
            assert(join(l, "/"@)[l[0].len() as int] == '/');
        } else {
            assert(join(l, "/"@)[l[0].len() as int] == j0[l[0].len() as int]);
        }
    }
}

/// A sanitized path is safe and is its own sanitized form: it is not absolute, each of its
/// `/`-separated components is a name (not empty, not `.`, not `..`), and sanitizing it
/// again accepts it and gives it back unchanged.
pub proof fn lemma_sanitize_idempotent(s: Seq<char>)
    requires
        sanitized_path(s) is Some,
    ensures
        !starts_with(sanitized_path(s).unwrap(), "/"@),
        forall|i: int|
            0 <= i < slash_pieces(sanitized_path(s).unwrap()).len() ==> (#[trigger] slash_pieces(
                sanitized_path(s).unwrap(),
            )[i]).len() > 0 && slash_pieces(sanitized_path(s).unwrap())[i] != "."@ && slash_pieces(
                sanitized_path(s).unwrap(),
            )[i] != ".."@,
        sanitized_path(sanitized_path(s).unwrap()) == sanitized_path(s),
{
    reveal_strlit("/");
    reveal_strlit(".");
    reveal_strlit("./");
    reveal_strlit("..");
    let segs = named_segments(slash_pieces(s));
    let p = join(segs, "/"@);
    lemma_no_slash_in_pieces(s);
    lemma_named_segments_props(slash_pieces(s));
    lemma_slash_pieces_of_join(segs);
    lemma_named_segments_fixed(segs);
    lemma_join_shape(segs);
    assert(named_segments(slash_pieces(p)) == segs);
    assert forall|i: int| 0 <= i < segs.len() implies segs[i] != ".."@ by {
        if segs[i] == ".."@ {
            assert(segs.contains(".."@));
        }
    }
    let s0 = segs[0];
    assert(s0.len() > 0 && s0 != "."@);
    assert(p.subrange(0, s0.len() as int) == s0);
    assert(p[0] == s0[0]);
    assert(s0[0] != '/');
    if starts_with(p, "/"@) {
        assert(p.subrange(0, 1)[0] == p[0]);
    }
    if p == "."@ {
        if segs.len() == 1 {
            assert(p == s0);
        }
    }
    if starts_with(p, "./"@) {
        assert(p.subrange(0, 2)[0] == p[0]);
        assert(p.subrange(0, 2)[1] == p[1]);
        if s0.len() >= 2 {
            assert(p[1] == s0[1]);
        } else {
            assert(s0 =~= "."@);
        }
    }
}

proof fn lemma_trim_start_first(s: Seq<char>)
    ensures
        trim_start(s).len() > 0 ==> !is_ws(trim_start(s)[0]),
    decreases s.len(),
{
    if s.len() > 0 && is_ws(s[0]) {
        lemma_trim_start_first(s.skip(1));
    }
}

proof fn lemma_trim_end_shape(s: Seq<char>)
    ensures
        trim_end(s).len() <= s.len(),
        trim_end(s) == s.take(trim_end(s).len() as int),
        trim_end(s).len() > 0 ==> !is_ws(trim_end(s).last()),
    decreases s.len(),
{
    if s.len() > 0 && is_ws(s.last()) {
        lemma_trim_end_shape(s.drop_last());
        let t = trim_end(s.drop_last());
        assert(s.drop_last().take(t.len() as int) =~= s.take(t.len() as int));
    } else {
        assert(s.take(s.len() as int) =~= s);
    }
}

/// A trimmed text neither starts nor ends with whitespace, so the sign-off reason that is
/// recorded carries none at its ends.
pub proof fn lemma_trimmed_has_no_outer_whitespace(s: Seq<char>)
    ensures
        trimmed(s).len() > 0 ==> !is_ws(trimmed(s)[0]) && !is_ws(trimmed(s).last()),
{
    let a = trim_start(s);
    lemma_trim_start_first(s);
    lemma_trim_end_shape(a);
    if trimmed(s).len() > 0 {
        assert(trimmed(s)[0] == a.take(trimmed(s).len() as int)[0]);
    }
}

} // verus!
