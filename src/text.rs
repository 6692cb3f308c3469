//! Text primitives shared by the scrapers: whitespace, search, line and
//! token splitting.
use vstd::prelude::*;

verus! {

/// Unicode's White_Space property, which `char::is_whitespace` and
/// `str::split_whitespace` go by.
pub open spec fn is_white_space(c: char) -> bool {
    let v = c as u32;
    ||| 0x9 <= v <= 0xd
    ||| v == 0x20
    ||| v == 0x85
    ||| v == 0xa0
    ||| v == 0x1680
    ||| 0x2000 <= v <= 0x200a
    ||| v == 0x2028
    ||| v == 0x2029
    ||| v == 0x202f
    ||| v == 0x205f
    ||| v == 0x3000
}

pub fn is_white_space_char(c: char) -> (r: bool)
    ensures
        r == is_white_space(c),
{
    let v = c as u32;
    (0x9 <= v && v <= 0xd) || v == 0x20 || v == 0x85 || v == 0xa0 || v == 0x1680 || (0x2000
        <= v && v <= 0x200a) || v == 0x2028 || v == 0x2029 || v == 0x202f || v == 0x205f || v
        == 0x3000
}

/// The characters of `s`, one per element.
pub fn chars_of(s: &str) -> (r: Vec<char>)
    ensures
        r@ == s@,
{
    let n = s.unicode_len();
    let mut r: Vec<char> = Vec::new();
    let mut i: usize = 0;
    while i < n
        invariant
            n == s@.len(),
            i <= n,
            r@ == s@.subrange(0, i as int),
        decreases n - i,
    {
        r.push(s.get_char(i));
        i = i + 1;
    }
    assert(r@ =~= s@);
    r
}

/// `n` stands in `h` starting at index `i`.
pub open spec fn occurs_at(h: Seq<char>, n: Seq<char>, i: int) -> bool {
    0 <= i && i + n.len() <= h.len() && h.subrange(i, i + n.len()) == n
}

pub open spec fn contains(h: Seq<char>, n: Seq<char>) -> bool {
    exists|i: int| occurs_at(h, n, i)
}

/// The first index at or after `i` where `n` stands in `h`.
pub open spec fn find_from(h: Seq<char>, n: Seq<char>, i: int) -> Option<int>
    decreases h.len() + 1 - i,
{
    if i < 0 || i + n.len() > h.len() {
        None
    } else if occurs_at(h, n, i) {
        Some(i)
    } else {
        find_from(h, n, i + 1)
    }
}

pub proof fn lemma_find_from(h: Seq<char>, n: Seq<char>, i: int)
    requires
        0 <= i,
    ensures
        find_from(h, n, i) matches Some(k) ==> i <= k && occurs_at(h, n, k) && forall|j: int|
            i <= j < k ==> !occurs_at(h, n, j),
        find_from(h, n, i) is None ==> forall|j: int| i <= j ==> !occurs_at(h, n, j),
    decreases h.len() + 1 - i,
{
    if i + n.len() <= h.len() && !occurs_at(h, n, i) {
        lemma_find_from(h, n, i + 1);
    }
}

pub proof fn lemma_find_contains(h: Seq<char>, n: Seq<char>)
    ensures
        find_from(h, n, 0) is Some <==> contains(h, n),
{
    lemma_find_from(h, n, 0);
}

fn occurs_at_exec(h: &Vec<char>, n: &Vec<char>, i: usize) -> (r: bool)
    requires
        i + n@.len() <= h@.len(),
    ensures
        r == occurs_at(h@, n@, i as int),
{
    let hl = h.len();
    let mut k: usize = 0;
    while k < n.len()
        invariant
            hl == h@.len(),
            i + n@.len() <= h@.len(),
            k <= n@.len(),
            forall|j: int| 0 <= j < k ==> h@[i + j] == n@[j],
        decreases n@.len() - k,
    {
        assert(i + k < h@.len());
        if h[i + k] != n[k] {
            assert(h@.subrange(i as int, i + n@.len())[k as int] != n@[k as int]);
            return false;
        }
        k = k + 1;
    }
    assert(h@.subrange(i as int, i + n@.len()) =~= n@);
    true
}

/// Index of the first occurrence of `n` in `h` at or after `from`.
pub fn find(h: &Vec<char>, n: &Vec<char>, from: usize) -> (r: Option<usize>)
    ensures
        r matches Some(k) ==> find_from(h@, n@, from as int) == Some(k as int),
        r is None ==> find_from(h@, n@, from as int) is None,
{
    if n.len() > h.len() {
        return None;
    }
    let last = h.len() - n.len();
    if from > last {
        return None;
    }
    let mut i = from;
    loop
        invariant
            last + n@.len() == h@.len(),
            from <= i <= last,
            find_from(h@, n@, from as int) == find_from(h@, n@, i as int),
        decreases last - i,
    {
        if occurs_at_exec(h, n, i) {
            return Some(i);
        }
        if i == last {
            assert(find_from(h@, n@, i + 1) is None);
            return None;
        }
        i = i + 1;
    }
}

pub fn contains_exec(h: &Vec<char>, n: &Vec<char>) -> (r: bool)
    ensures
        r == contains(h@, n@),
{
    proof {
        lemma_find_contains(h@, n@);
    }
    find(h, n, 0).is_some()
}

/// What the strings of a sequence hold.
pub open spec fn views(v: Seq<String>) -> Seq<Seq<char>> {
    v.map_values(|x: String| x@)
}

/// The pieces of `s` between its '\n' characters, as `str::split('\n')` gives
/// them.
pub open spec fn pieces(s: Seq<char>) -> Seq<Seq<char>>
    decreases s.len(),
{
    if s.len() == 0 {
        seq![Seq::empty()]
    } else {
        let p = pieces(s.drop_last());
        if s.last() == '\n' {
            p.push(Seq::empty())
        } else {
            p.update(p.len() - 1, p.last().push(s.last()))
        }
    }
}

pub open spec fn strip_cr(l: Seq<char>) -> Seq<char> {
    if l.len() > 0 && l.last() == '\r' {
        l.drop_last()
    } else {
        l
    }
}

/// The lines of `s` as `str::lines` yields them: split at each '\n', with a
/// '\r' right before a '\n' dropped, and no empty line after a final '\n'.
pub open spec fn lines(s: Seq<char>) -> Seq<Seq<char>> {
    let p = pieces(s);
    let ended = p.drop_last().map_values(|l: Seq<char>| strip_cr(l));
    if p.last().len() == 0 {
        ended
    } else {
        ended.push(p.last())
    }
}

/// The lines of `s`, as `str::lines` splits them.
pub fn split_lines(s: &str) -> (r: Vec<String>)
    ensures
        views(r@) == lines(s@),
{
    let cs = chars_of(s);
    let n = cs.len();
    let mut out: Vec<String> = Vec::new();
    let mut start: usize = 0;
    let mut i: usize = 0;
    proof {
        assert(cs@.take(0) =~= Seq::<char>::empty());
        assert(views(out@) =~= pieces(cs@.take(0)).drop_last().map_values(
            |l: Seq<char>| strip_cr(l),
        ));
    }
    while i < n
        invariant
            n == cs@.len(),
            cs@ == s@,
            start <= i <= n,
            pieces(cs@.take(i as int)).len() >= 1,
            pieces(cs@.take(i as int)).last() == cs@.subrange(start as int, i as int),
            views(out@) == pieces(cs@.take(i as int)).drop_last().map_values(
                |l: Seq<char>| strip_cr(l),
            ),
        decreases n - i,
    {
        let ghost prev = pieces(cs@.take(i as int));
        proof {
            assert(cs@.take(i + 1).drop_last() =~= cs@.take(i as int));
        }
        if cs[i] == '\n' {
            let end = if i > start && cs[i - 1] == '\r' {
                i - 1
            } else {
                i
            };
            let line = String::from_str(s.substring_char(start, end));
            proof {
                assert(line@ =~= strip_cr(prev.last()));
            }
            let ghost old_out = out@;
            out.push(line);
            proof {
                let next = pieces(cs@.take(i + 1));
                assert(views(out@) =~= views(old_out).push(line@));
                assert(next =~= prev.push(Seq::empty()));
                assert(next.drop_last() =~= prev);
                assert(prev =~= prev.drop_last().push(prev.last()));
                assert(views(out@) =~= next.drop_last().map_values(|l: Seq<char>| strip_cr(l)));
                assert(next.last() =~= cs@.subrange(i + 1, i + 1));
            }
            start = i + 1;
        } else {
            proof {
                let next = pieces(cs@.take(i + 1));
                assert(next.drop_last() =~= prev.drop_last());
                assert(next.last() =~= cs@.subrange(start as int, i + 1));
            }
        }
        i = i + 1;
    }
    proof {
        assert(cs@.take(n as int) =~= cs@);
    }
    if start < n {
        let line = String::from_str(s.substring_char(start, n));
        out.push(line);
        proof {
            let p = pieces(cs@);
            assert(views(out@) =~= lines(s@));
        }
    } else {
        proof {
            assert(cs@.subrange(start as int, n as int) =~= Seq::<char>::empty());
        }
    }
    out
}

/// The maximal runs of non-whitespace characters of `s`, as
/// `str::split_whitespace` yields them.
pub open spec fn tokens(s: Seq<char>) -> Seq<Seq<char>>
    decreases s.len(),
{
    if s.len() == 0 {
        seq![]
    } else {
        let t = tokens(s.drop_last());
        let c = s.last();
        if is_white_space(c) {
            t
        } else if s.len() >= 2 && !is_white_space(s[s.len() - 2]) {
            t.update(t.len() - 1, t.last().push(c))
        } else {
            t.push(seq![c])
        }
    }
}

/// The whitespace-separated tokens of `s`.
pub fn split_whitespace(s: &str) -> (r: Vec<String>)
    ensures
        views(r@) == tokens(s@),
{
    let cs = chars_of(s);
    let n = cs.len();
    let mut out: Vec<String> = Vec::new();
    let mut start: usize = 0;
    let mut in_token = false;
    let mut i: usize = 0;
    proof {
        assert(cs@.take(0) =~= Seq::<char>::empty());
        assert(views(out@) =~= tokens(cs@.take(0)));
    }
    while i < n
        invariant
            n == cs@.len(),
            cs@ == s@,
            start <= i <= n,
            in_token == (i > 0 && !is_white_space(cs@[i - 1])),
            in_token ==> tokens(cs@.take(i as int)).len() >= 1 && tokens(cs@.take(i as int)).last()
                == cs@.subrange(start as int, i as int) && views(out@) == tokens(
                cs@.take(i as int),
            ).drop_last(),
            !in_token ==> views(out@) == tokens(cs@.take(i as int)),
        decreases n - i,
    {
        let ghost prev = tokens(cs@.take(i as int));
        proof {
            assert(cs@.take(i + 1).drop_last() =~= cs@.take(i as int));
        }
        if is_white_space_char(cs[i]) {
            if in_token {
                let tok = String::from_str(s.substring_char(start, i));
                out.push(tok);
                proof {
                    assert(prev =~= prev.drop_last().push(prev.last()));
                    assert(views(out@) =~= prev);
                }
            }
            in_token = false;
        } else {
            if !in_token {
                start = i;
                proof {
                    assert(cs@.subrange(start as int, i + 1) =~= seq![cs@[i as int]]);
                    assert(tokens(cs@.take(i + 1)).drop_last() =~= prev);
                }
            } else {
                proof {
                    let next = tokens(cs@.take(i + 1));
                    assert(next.drop_last() =~= prev.drop_last());
                    assert(next.last() =~= cs@.subrange(start as int, i + 1));
                }
            }
            in_token = true;
        }
        i = i + 1;
    }
    proof {
        assert(cs@.take(n as int) =~= cs@);
    }
    if in_token {
        let tok = String::from_str(s.substring_char(start, n));
        out.push(tok);
        proof {
            let t = tokens(cs@);
            assert(t =~= t.drop_last().push(t.last()));
            assert(views(out@) =~= t);
        }
    }
    out
}

/// `parts` joined with single spaces between them.
pub open spec fn join_spaced(parts: Seq<Seq<char>>) -> Seq<char>
    decreases parts.len(),
{
    if parts.len() == 0 {
        Seq::empty()
    } else if parts.len() == 1 {
        parts[0]
    } else {
        join_spaced(parts.drop_last()) + seq![' '] + parts.last()
    }
}

/// The strings `parts[lo..hi]` joined with single spaces.
pub fn join_spaced_range(parts: &Vec<String>, lo: usize, hi: usize) -> (r: String)
    requires
        lo <= hi <= parts@.len(),
    ensures
        r@ == join_spaced(views(parts@).subrange(lo as int, hi as int)),
{
    let mut out = String::new();
    let mut i = lo;
    proof {
        reveal_strlit(" ");
        assert(views(parts@).subrange(lo as int, lo as int) =~= Seq::<Seq<char>>::empty());
        assert(out@ =~= Seq::<char>::empty());
    }
    while i < hi
        invariant
            lo <= i <= hi <= parts@.len(),
            out@ == join_spaced(views(parts@).subrange(lo as int, i as int)),
        decreases hi - i,
    {
        let ghost prev = views(parts@).subrange(lo as int, i as int);
        let ghost next = views(parts@).subrange(lo as int, i + 1);
        proof {
            assert(next.drop_last() =~= prev);
        }
        if i > lo {
            out.append(" ");
            proof {
                reveal_strlit(" ");
                assert(" "@ =~= seq![' ']);
            }
        } else {
            assert(prev.len() == 0);
        }
        out.append(parts[i].as_str());
        i = i + 1;
    }
    out
}

/// `s` with every occurrence of `pat` removed, searching left to right, as
/// `str::replace(pat, "")` does for a non-empty `pat`.
pub open spec fn remove_all(s: Seq<char>, pat: Seq<char>) -> Seq<char>
    decreases s.len(),
{
    if pat.len() == 0 || s.len() == 0 {
        s
    } else if occurs_at(s, pat, 0) {
        remove_all(s.skip(pat.len() as int), pat)
    } else {
        seq![s[0]] + remove_all(s.skip(1), pat)
    }
}

/// `s` with each occurrence of `pat` taken out.
pub fn remove_all_exec(s: &str, pat: &str) -> (r: String)
    requires
        pat@.len() > 0,
    ensures
        r@ == remove_all(s@, pat@),
{
    let cs = chars_of(s);
    let ps = chars_of(pat);
    let n = cs.len();
    let m = ps.len();
    let mut out = String::new();
    let mut i: usize = 0;
    proof {
        assert(cs@.skip(0) =~= cs@);
        assert(out@ + remove_all(cs@.skip(0), ps@) =~= remove_all(cs@, ps@));
    }
    while i < n
        invariant
            n == cs@.len(),
            m == ps@.len(),
            m > 0,
            cs@ == s@,
            ps@ == pat@,
            i <= n,
            out@ + remove_all(cs@.skip(i as int), ps@) == remove_all(cs@, ps@),
        decreases n - i,
    {
        let ghost rest = cs@.skip(i as int);
        let hit = m <= n - i && occurs_at_exec(&cs, &ps, i);
        proof {
            if m <= n - i {
                assert(rest.subrange(0, m as int) =~= cs@.subrange(i as int, i + m));
            }
        }
        if hit {
            proof {
                assert(rest.skip(m as int) =~= cs@.skip(i + m));
            }
            i = i + m;
        } else {
            let c = s.substring_char(i, i + 1);
            let ghost before = out@;
            out.append(c);
            proof {
                assert(rest.skip(1) =~= cs@.skip(i + 1));
                assert(c@ =~= seq![rest[0]]);
                assert(out@ + remove_all(cs@.skip(i + 1), ps@) =~= before + remove_all(rest, ps@));
            }
            i = i + 1;
        }
    }
    proof {
        assert(cs@.skip(i as int) =~= Seq::<char>::empty());
        assert(out@ + remove_all(cs@.skip(i as int), ps@) =~= out@);
    }
    out
}

/// Every token holds a character, and a text ending in a non-whitespace
/// character has a token.
pub proof fn lemma_tokens_nonempty(s: Seq<char>)
    ensures
        forall|k: int| 0 <= k < tokens(s).len() ==> tokens(s)[k].len() > 0,
        s.len() > 0 && !is_white_space(s.last()) ==> tokens(s).len() >= 1,
    decreases s.len(),
{
    if s.len() > 0 {
        let init = s.drop_last();
        lemma_tokens_nonempty(init);
        let t = tokens(init);
        if s.len() >= 2 {
            assert(init.last() == s[s.len() - 2]);
        }
        assert forall|k: int| 0 <= k < tokens(s).len() implies tokens(s)[k].len() > 0 by {
            if k < t.len() {
                assert(t[k].len() > 0);
            }
        }
    }
}

} // verus!
