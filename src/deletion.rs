//! The model-name list of a delete request, and the combined outcome of the
//! requests.
use crate::manifest::str_views;
use crate::text::chars_of;
use vstd::prelude::*;

verus! {

/// Unicode's White_Space property.
pub open spec fn is_white(c: char) -> bool {
    ||| ('\t' <= c && c <= '\r')
    ||| c == ' '
    ||| c == '\u{85}'
    ||| c == '\u{a0}'
    ||| c == '\u{1680}'
    ||| ('\u{2000}' <= c && c <= '\u{200a}')
    ||| c == '\u{2028}'
    ||| c == '\u{2029}'
    ||| c == '\u{202f}'
    ||| c == '\u{205f}'
    ||| c == '\u{3000}'
}

pub fn white(c: char) -> (r: bool)
    ensures
        r == is_white(c),
{
    ('\t' <= c && c <= '\r') || c == ' ' || c == '\u{85}' || c == '\u{a0}' || c == '\u{1680}'
        || ('\u{2000}' <= c && c <= '\u{200a}') || c == '\u{2028}' || c == '\u{2029}' || c
        == '\u{202f}' || c == '\u{205f}' || c == '\u{3000}'
}

pub open spec fn trim_start(s: Seq<char>) -> Seq<char>
    decreases s.len(),
{
    if s.len() > 0 && is_white(s[0]) {
        trim_start(s.drop_first())
    } else {
        s
    }
}

pub open spec fn trim_end(s: Seq<char>) -> Seq<char>
    decreases s.len(),
{
    if s.len() > 0 && is_white(s.last()) {
        trim_end(s.drop_last())
    } else {
        s
    }
}

/// `s` without leading and trailing white space.
pub open spec fn trim(s: Seq<char>) -> Seq<char> {
    trim_end(trim_start(s))
}

/// The pieces of `s` between commas; there is always at least one.
pub open spec fn split_at_commas(s: Seq<char>) -> Seq<Seq<char>>
    decreases s.len(),
{
    if s.len() == 0 {
        seq![Seq::empty()]
    } else {
        let prev = split_at_commas(s.drop_last());
        if s.last() == ',' {
            prev.push(Seq::empty())
        } else {
            prev.update(prev.len() - 1, prev.last().push(s.last()))
        }
    }
}

/// `s[from..to]` without leading and trailing white space.
fn trimmed(s: &str, cs: &Vec<char>, from: usize, to: usize) -> (r: String)
    requires
        cs@ == s@,
        from <= to <= cs.len(),
    ensures
        r@ == trim(s@.subrange(from as int, to as int)),
{
    let mut a: usize = from;
    while a < to && white(cs[a])
        invariant
            cs@ == s@,
            from <= a <= to <= cs.len(),
            trim_start(s@.subrange(from as int, to as int)) == trim_start(s@.subrange(a as int, to as int)),
        decreases to - a,
    {
        assert(s@.subrange(a as int, to as int).drop_first() =~= s@.subrange(a + 1, to as int));
        a = a + 1;
    }
    let ghost ts = s@.subrange(a as int, to as int);
    assert(trim_start(ts) == ts);
    let mut b: usize = to;
    while b > a && white(cs[b - 1])
        invariant
            cs@ == s@,
            a <= b <= to <= cs.len(),
            trim_end(ts) == trim_end(s@.subrange(a as int, b as int)),
        decreases b - a,
    {
        assert(s@.subrange(a as int, b as int).drop_last() =~= s@.subrange(a as int, b - 1));
        b = b - 1;
    }
    assert(trim_end(s@.subrange(a as int, b as int)) == s@.subrange(a as int, b as int));
    String::from_str(s.substring_char(a, b))
}

/// The model names of a comma-separated list, each without surrounding white
/// space, in order.
pub fn split_model_names(s: &str) -> (r: Vec<String>)
    ensures
        str_views(r@) == split_at_commas(s@).map_values(|p: Seq<char>| trim(p)),
{
    let cs = chars_of(s);
    let mut r: Vec<String> = Vec::new();
    let mut seg: usize = 0;
    let mut i: usize = 0;
    while i < cs.len()
        invariant
            cs@ == s@,
            seg <= i <= cs.len(),
            split_at_commas(s@.subrange(0, i as int)).len() >= 1,
            str_views(r@) == split_at_commas(s@.subrange(0, i as int)).drop_last().map_values(
                |p: Seq<char>| trim(p),
            ),
            split_at_commas(s@.subrange(0, i as int)).last() == s@.subrange(seg as int, i as int),
        decreases cs.len() - i,
    {
        let ghost pre = s@.subrange(0, i as int);
        let ghost post = s@.subrange(0, i + 1);
        assert(post.drop_last() =~= pre);
        assert(post.last() == cs@[i as int]);
        let ghost before = r@;
        if cs[i] == ',' {
            let piece = trimmed(s, &cs, seg, i);
            r.push(piece);
            assert(str_views(r@) =~= str_views(before).push(piece@));
            assert(split_at_commas(post).drop_last() =~= split_at_commas(pre));
            assert(split_at_commas(post).drop_last().map_values(|p: Seq<char>| trim(p)) =~= split_at_commas(
                pre,
            ).drop_last().map_values(|p: Seq<char>| trim(p)).push(trim(split_at_commas(pre).last())));
            seg = i + 1;
            assert(s@.subrange(seg as int, i + 1) =~= Seq::<char>::empty());
        } else {
            assert(split_at_commas(post).drop_last() =~= split_at_commas(pre).drop_last());
            assert(s@.subrange(seg as int, i + 1) =~= s@.subrange(seg as int, i as int).push(cs@[i as int]));
        }
        i = i + 1;
    }
    assert(s@.subrange(0, cs.len() as int) =~= s@);
    let ghost before = r@;
    let last = trimmed(s, &cs, seg, cs.len());
    r.push(last);
    assert(str_views(r@) =~= str_views(before).push(last@));
    let ghost sp = split_at_commas(s@);
    assert(sp =~= sp.drop_last().push(sp.last()));
    assert(sp.map_values(|p: Seq<char>| trim(p)) =~= sp.drop_last().map_values(|p: Seq<char>| trim(p)).push(
        trim(sp.last()),
    ));
    r
}

/// The messages joined, each after the first on a line of its own.
pub open spec fn joined_lines(s: Seq<Seq<char>>) -> Seq<char>
    decreases s.len(),
{
    if s.len() == 0 {
        Seq::empty()
    } else if s.len() == 1 {
        s[0]
    } else {
        joined_lines(s.drop_last()) + "\n"@ + s.last()
    }
}

/// The outcome of a batch of deletions from the failures it met: success
/// when there were none, else every failure message on its own line.
pub fn deletion_outcome(errors: &Vec<String>) -> (r: Result<(), String>)
    ensures
        errors.len() == 0 <==> r is Ok,
        r matches Err(e) ==> e@ == joined_lines(str_views(errors@)),
{
    if errors.len() == 0 {
        return Ok(());
    }
    let mut out = errors[0].clone();
    let mut i: usize = 1;
    assert(str_views(errors@).subrange(0, 1).drop_last() =~= Seq::<Seq<char>>::empty());
    while i < errors.len()
        invariant
            1 <= i <= errors.len(),
            out@ == joined_lines(str_views(errors@).subrange(0, i as int)),
        decreases errors.len() - i,
    {
        out.append("\n");
        out.append(errors[i].as_str());
        assert(str_views(errors@).subrange(0, i + 1).drop_last() =~= str_views(errors@).subrange(0, i as int));
        i = i + 1;
    }
    assert(str_views(errors@).subrange(0, errors.len() as int) =~= str_views(errors@));
    Err(out)
}

} // verus!
