//! Rendering a type for a diagnostic: the spacing that token printing puts
//! around `<`, `>`, `,` and `::` is removed so the type reads as written.
use vstd::prelude::*;

verus! {

/// `s` with every occurrence of `pat`, scanning left to right and without
/// overlap, replaced by `rep`.
pub open spec fn replaced(s: Seq<char>, pat: Seq<char>, rep: Seq<char>) -> Seq<char>
    decreases s.len(),
{
    if pat.len() == 0 || s.len() < pat.len() {
        s
    } else if s.take(pat.len() as int) == pat {
        rep + replaced(s.skip(pat.len() as int), pat, rep)
    } else {
        seq![s[0]] + replaced(s.drop_first(), pat, rep)
    }
}

/// Does `pat` occur in `s` at index `at`?
fn occurs_at(s: &Vec<char>, at: usize, pat: &Vec<char>) -> (r: bool)
    requires
        at <= s@.len(),
    ensures
        r == (at + pat@.len() <= s@.len() && s@.skip(at as int).take(pat@.len() as int) == pat@),
{
    if pat.len() > s.len() - at {
        return false;
    }
    let mut k: usize = 0;
    while k < pat.len()
        invariant
            at + pat@.len() <= s@.len(),
            k <= pat@.len(),
            s@.len() <= usize::MAX,
            forall|x: int| 0 <= x < k ==> s@[at + x] == pat@[x],
        decreases pat@.len() - k,
    {
        if s[at + k] != pat[k] {
            assert(s@.skip(at as int).take(pat@.len() as int)[k as int] != pat@[k as int]);
            return false;
        }
        k = k + 1;
    }
    assert(s@.skip(at as int).take(pat@.len() as int) =~= pat@);
    true
}

/// Replaces every occurrence of the non-empty `pat` in `s` by `rep`, scanning
/// left to right without overlap.
pub fn replace_all(s: &Vec<char>, pat: &Vec<char>, rep: &Vec<char>) -> (out: Vec<char>)
    requires
        pat@.len() > 0,
    ensures
        out@ == replaced(s@, pat@, rep@),
{
    let mut out: Vec<char> = Vec::new();
    let mut i: usize = 0;
    assert(s@.skip(0) =~= s@);
    while i < s.len()
        invariant
            i <= s@.len(),
            pat@.len() > 0,
            replaced(s@, pat@, rep@) == out@ + replaced(s@.skip(i as int), pat@, rep@),
        decreases s@.len() - i,
    {
        let ghost rest = s@.skip(i as int);
        if occurs_at(s, i, pat) {
            assert(rest.skip(pat@.len() as int) =~= s@.skip(i + pat@.len()));
            let mut k: usize = 0;
            let ghost before = out@;
            while k < rep.len()
                invariant
                    k <= rep@.len(),
                    out@ == before + rep@.take(k as int),
                decreases rep@.len() - k,
            {
                out.push(rep[k]);
                assert(rep@.take(k + 1) =~= rep@.take(k as int).push(rep@[k as int]));
                assert(out@ =~= before + rep@.take(k + 1));
                k = k + 1;
            }
            assert(rep@.take(k as int) =~= rep@);
            assert(before + (rep@ + replaced(s@.skip(i + pat@.len()), pat@, rep@)) =~= out@
                + replaced(s@.skip(i + pat@.len()), pat@, rep@));
            i = i + pat.len();
        } else {
            assert(rest.drop_first() =~= s@.skip(i + 1));
            assert(rest[0] == s@[i as int]);
            proof {
                if rest.len() < pat@.len() {
                    assert(replaced(rest, pat@, rep@) == rest);
                    assert(rest =~= seq![rest[0]] + rest.drop_first());
                    assert(rest.drop_first().len() < pat@.len());
                    assert(replaced(rest.drop_first(), pat@, rep@) == rest.drop_first());
                }
            }
            let ghost before = out@;
            out.push(s[i]);
            assert(before + (seq![s@[i as int]] + replaced(s@.skip(i + 1), pat@, rep@)) =~= out@
                + replaced(s@.skip(i + 1), pat@, rep@));
            i = i + 1;
        }
    }
    assert(s@.skip(i as int).len() == 0);
    assert(out@ + s@.skip(i as int) =~= out@);
    out
}

/// The rendered text `text` of a type with the spaces that token printing
/// inserts around `<`, `>`, `,` and `::`, and after a reference's `&`,
/// removed, in this order: `" <"`, `"< "`, `" >"`, `" ,"`, `" ::"`, `":: "`,
/// `"& "`. So the printed `& Storage` reads `&Storage` and `& mut Storage`
/// reads `&mut Storage`.
pub open spec fn tidied(text: Seq<char>) -> Seq<char> {
    let a = replaced(text, seq![' ', '<'], seq!['<']);
    let b = replaced(a, seq!['<', ' '], seq!['<']);
    let c = replaced(b, seq![' ', '>'], seq!['>']);
    let d = replaced(c, seq![' ', ','], seq![',']);
    let e = replaced(d, seq![' ', ':', ':'], seq![':', ':']);
    let f = replaced(e, seq![':', ':', ' '], seq![':', ':']);
    replaced(f, seq!['&', ' '], seq!['&'])
}

/// Renders a type roughly as the user wrote it, from its printed tokens.
pub fn ty_str(text: &Vec<char>) -> (out: Vec<char>)
    ensures
        out@ == tidied(text@),
{
    let space_lt = vec![' ', '<'];
    let lt_space = vec!['<', ' '];
    let space_gt = vec![' ', '>'];
    let space_comma = vec![' ', ','];
    let space_path = vec![' ', ':', ':'];
    let path_space = vec![':', ':', ' '];
    let lt = vec!['<'];
    let gt = vec!['>'];
    let comma = vec![','];
    let path = vec![':', ':'];
    let amp_space = vec!['&', ' '];
    let amp = vec!['&'];
    assert(amp_space@ =~= seq!['&', ' '] && amp@ =~= seq!['&']);
    assert(space_lt@ =~= seq![' ', '<'] && lt_space@ =~= seq!['<', ' ']);
    assert(space_gt@ =~= seq![' ', '>'] && space_comma@ =~= seq![' ', ',']);
    assert(space_path@ =~= seq![' ', ':', ':'] && path_space@ =~= seq![':', ':', ' ']);
    assert(lt@ =~= seq!['<'] && gt@ =~= seq!['>'] && comma@ =~= seq![','] && path@ =~= seq![':', ':']);
    let a = replace_all(text, &space_lt, &lt);
    let b = replace_all(&a, &lt_space, &lt);
    let c = replace_all(&b, &space_gt, &gt);
    let d = replace_all(&c, &space_comma, &comma);
    let e = replace_all(&d, &space_path, &path);
    let f = replace_all(&e, &path_space, &path);
    replace_all(&f, &amp_space, &amp)
}

} // verus!
