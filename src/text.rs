use vstd::prelude::*;
use vstd::string::*;

verus! {

/// The comma-separated join of a list of names.
#[verifier::opaque]
pub open spec fn join_comma(names: Seq<Seq<char>>) -> Seq<char>
    decreases names.len(),
{
    if names.len() == 0 {
        Seq::empty()
    } else if names.len() == 1 {
        names[0]
    } else {
        join_comma(names.drop_last()) + seq![','] + names.last()
    }
}

/// Appends `name` to a comma-separated list held in `out`.
pub fn push_joined(out: &mut String, nonempty: bool, names: Ghost<Seq<Seq<char>>>, name: &str)
    requires
        old(out)@ == join_comma(names@),
        nonempty == (names@.len() > 0),
    ensures
        final(out)@ == join_comma(names@.push(name@)),
{
    reveal(join_comma);
    assert(names@.push(name@).drop_last() =~= names@);
    if nonempty {
        out.append(",");
        proof {
            reveal_strlit(",");
        }
    }
    out.append(name);
    assert(final(out)@ =~= join_comma(names@.push(name@)));
}

/// Whether `s` holds exactly the text `lit`.
pub fn text_is(s: &String, lit: &str) -> (r: bool)
    ensures
        r == (s@ == lit@),
{
    let t = String::from_str(lit);
    s.eq(&t)
}

/// `s` followed by `suffix`, as a new string.
pub fn concat_text(s: &str, suffix: &str) -> (r: String)
    ensures
        r@ == s@ + suffix@,
{
    let mut out = String::from_str(s);
    out.append(suffix);
    out
}
} // verus!

verus! {

/// Relies on std's `String::push`: appends one character.
#[verifier::external_body]
pub fn push_char(s: &mut String, c: char)
    ensures
        final(s)@ == old(s)@.push(c),
{
    s.push(c);
}

/// The characters of `s`, one by one.
pub fn chars_of(s: &str) -> (r: Vec<char>)
    ensures
        r@ == s@,
{
    let n = s.unicode_len();
    let mut out: Vec<char> = Vec::new();
    let mut i: usize = 0;
    while i < n
        invariant
            n == s@.len(),
            i <= n,
            out@ == s@.take(i as int),
        decreases n - i,
    {
        out.push(s.get_char(i));
        i = i + 1;
        assert(out@ =~= s@.take(i as int));
    }
    assert(s@.take(n as int) =~= s@);
    out
}

/// The text made of the characters of `cs`.
pub fn text_of_chars(cs: &Vec<char>) -> (r: String)
    ensures
        r@ == cs@,
{
    let mut out = String::new();
    let mut i: usize = 0;
    while i < cs.len()
        invariant
            i <= cs.len(),
            out@ == cs@.take(i as int),
        decreases cs.len() - i,
    {
        push_char(&mut out, cs[i]);
        i = i + 1;
        assert(out@ =~= cs@.take(i as int));
    }
    assert(cs@.take(cs.len() as int) =~= cs@);
    out
}

/// Every non-overlapping occurrence of `pat` in `s`, from the left,
/// replaced by `rep`; an empty `pat` occurs before each character and at
/// the end.
pub open spec fn replace_all(s: Seq<char>, pat: Seq<char>, rep: Seq<char>) -> Seq<char>
    decreases s.len(),
{
    if pat.len() == 0 {
        if s.len() == 0 {
            rep
        } else {
            rep + seq![s[0]] + replace_all(s.skip(1), pat, rep)
        }
    } else if s.len() == 0 {
        s
    } else if pat.len() <= s.len() && s.take(pat.len() as int) == pat {
        rep + replace_all(s.skip(pat.len() as int), pat, rep)
    } else {
        seq![s[0]] + replace_all(s.skip(1), pat, rep)
    }
}

/// `rep` before each character of `cs` and at the end: what replacing an
/// empty pattern gives.
fn interleave(cs: &Vec<char>, rep: &str, pat: Ghost<Seq<char>>) -> (r: String)
    requires
        pat@.len() == 0,
    ensures
        r@ == replace_all(cs@, pat@, rep@),
{
    let mut out = String::new();
    let mut i: usize = 0;
    assert(cs@.skip(0) =~= cs@);
    assert(out@ + replace_all(cs@.skip(0), pat@, rep@) =~= replace_all(cs@, pat@, rep@));
    while i < cs.len()
        invariant
            i <= cs.len(),
            pat@.len() == 0,
            out@ + replace_all(cs@.skip(i as int), pat@, rep@) == replace_all(cs@, pat@, rep@),
        decreases cs.len() - i,
    {
        let ghost rest = cs@.skip(i as int);
        let ghost old_out = out@;
        assert(rest.skip(1) =~= cs@.skip(i + 1));
        assert(rest[0] == cs@[i as int]);
        out.append(rep);
        push_char(&mut out, cs[i]);
        assert(out@ + replace_all(cs@.skip(i + 1), pat@, rep@) =~= old_out + (rep@ + seq![rest[0]] + replace_all(rest.skip(1), pat@, rep@)));
        i = i + 1;
    }
    assert(cs@.skip(i as int) =~= Seq::<char>::empty());
    let ghost old_out = out@;
    out.append(rep);
    assert(out@ =~= old_out + rep@);
    out
}

/// Whether `pat` occurs in `cs` at position `i`.
fn occurs_at(cs: &Vec<char>, i: usize, pat: &Vec<char>) -> (r: bool)
    requires
        i <= cs.len(),
    ensures
        r == (pat.len() <= cs.len() - i && cs@.skip(i as int).take(pat.len() as int) == pat@),
{
    if pat.len() > cs.len() - i {
        return false;
    }
    let mut k: usize = 0;
    while k < pat.len()
        invariant
            pat.len() <= cs.len() - i,
            k <= pat.len(),
            forall|j: int| 0 <= j < k ==> cs@[i + j] == pat@[j],
        decreases pat.len() - k,
    {
        if cs[i + k] != pat[k] {
            assert(cs@.skip(i as int).take(pat.len() as int)[k as int] != pat@[k as int]);
            return false;
        }
        k = k + 1;
    }
    assert(cs@.skip(i as int).take(pat.len() as int) =~= pat@);
    true
}

/// `s` with every occurrence of `pat` replaced by `rep`, as std's `str::replace` does.
pub fn replace_text(s: &str, pat: &str, rep: &str) -> (r: String)
    ensures
        r@ == replace_all(s@, pat@, rep@),
{
    let cs = chars_of(s);
    let ps = chars_of(pat);
    if ps.len() == 0 {
        return interleave(&cs, rep, Ghost(pat@));
    }
    let mut out = String::new();
    let mut i: usize = 0;
    assert(cs@.skip(0) =~= cs@);
    while i < cs.len()
        invariant
            i <= cs.len(),
            cs@ == s@,
            ps@ == pat@,
            ps@.len() > 0,
            out@ + replace_all(cs@.skip(i as int), ps@, rep@) == replace_all(s@, pat@, rep@),
        decreases cs.len() - i,
    {
        let ghost rest = cs@.skip(i as int);
        let ghost old_out = out@;
        if occurs_at(&cs, i, &ps) {
            assert(rest.skip(ps@.len() as int) =~= cs@.skip(i + ps@.len()));
            assert(replace_all(rest, ps@, rep@) == rep@ + replace_all(rest.skip(ps@.len() as int), ps@, rep@));
            out.append(rep);
            assert(out@ + replace_all(cs@.skip(i + ps@.len()), ps@, rep@) =~= old_out + (rep@ + replace_all(rest.skip(ps@.len() as int), ps@, rep@)));
            i = i + ps.len();
        } else {
            assert(rest.skip(1) =~= cs@.skip(i + 1));
            assert(replace_all(rest, ps@, rep@) == seq![rest[0]] + replace_all(rest.skip(1), ps@, rep@));
            push_char(&mut out, cs[i]);
            assert(out@ + replace_all(cs@.skip(i + 1), ps@, rep@) =~= old_out + (seq![rest[0]] + replace_all(rest.skip(1), ps@, rep@)));
            i = i + 1;
        }
    }
    assert(cs@.skip(cs.len() as int) =~= Seq::<char>::empty());
    assert(out@ + Seq::<char>::empty() =~= out@);
    out
}

/// The decimal digit `d`.
pub open spec fn digit_char(d: nat) -> char {
    seq!['0', '1', '2', '3', '4', '5', '6', '7', '8', '9'][d as int]
}

/// The decimal text of `n`, without leading zeros.
pub open spec fn decimal(n: nat) -> Seq<char>
    decreases n,
{
    if n < 10 {
        seq![digit_char(n)]
    } else {
        decimal(n / 10).push(digit_char(n % 10))
    }
}

fn digit(d: usize) -> (r: char)
    requires
        d < 10,
    ensures
        r == digit_char(d as nat),
{
    if d == 0 { '0' } else if d == 1 { '1' } else if d == 2 { '2' } else if d == 3 { '3' }
    else if d == 4 { '4' } else if d == 5 { '5' } else if d == 6 { '6' } else if d == 7 { '7' }
    else if d == 8 { '8' } else { '9' }
}

/// The decimal text of `n`.
pub fn decimal_text(n: usize) -> (r: String)
    ensures
        r@ == decimal(n as nat),
    decreases n,
{
    if n < 10 {
        let mut s = String::new();
        push_char(&mut s, digit(n));
        assert(s@ =~= decimal(n as nat));
        s
    } else {
        let mut s = decimal_text(n / 10);
        push_char(&mut s, digit(n % 10));
        s
    }
}

/// A thumbnail address with its `{width}` and `{height}` placeholders filled in.
pub open spec fn sized_url(url: Seq<char>, width: nat, height: nat) -> Seq<char> {
    replace_all(replace_all(url, "{width}"@, decimal(width)), "{height}"@, decimal(height))
}

/// The 320 by 180 thumbnail of a stream.
pub open spec fn thumbnail_text(url: Seq<char>) -> Seq<char> {
    sized_url(url, 320, 180)
}

/// Fills the `{width}` and `{height}` placeholders of a thumbnail address.
pub fn process_thumbnail_url(url: &str, width: usize, height: usize) -> (r: String)
    ensures
        r@ == sized_url(url@, width as nat, height as nat),
{
    proof {
        reveal_strlit("{width}");
        reveal_strlit("{height}");
    }
    let w = decimal_text(width);
    let once = replace_text(url, "{width}", w.as_str());
    let h = decimal_text(height);
    replace_text(once.as_str(), "{height}", h.as_str())
}

} // verus!
