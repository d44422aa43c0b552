//! Rendering a list of already-formatted elements as `[e0, e1, ..., en]`:
//! the bracket-and-separator framing, stated exactly over character
//! sequences. Formatting a single element needs `Display`, which stays
//! outside the library; callers hand the parts in as strings.

use vstd::prelude::*;
use vstd::string::StringExecFns;

verus! {

/// The parts joined in order, a comma and a space between neighbours.
pub open spec fn joined(parts: Seq<Seq<char>>) -> Seq<char>
    decreases parts.len(),
{
    if parts.len() == 0 {
        Seq::empty()
    } else if parts.len() == 1 {
        parts[0]
    } else {
        parts[0] + ", "@ + joined(parts.drop_first())
    }
}

/// The character sequences of a sequence of strings.
pub open spec fn views_of(parts: Seq<String>) -> Seq<Seq<char>> {
    parts.map_values(|p: String| p@)
}

/// Joining one more part appends it after a separator, unless it is the
/// first.
proof fn lemma_joined_push(parts: Seq<Seq<char>>, p: Seq<char>)
    ensures
        joined(parts.push(p)) == (if parts.len() == 0 {
            p
        } else {
            joined(parts) + ", "@ + p
        }),
    decreases parts.len(),
{
    let whole = parts.push(p);
    if parts.len() == 0 {
        assert(whole.len() == 1);
        assert(whole[0] == p);
    } else if parts.len() == 1 {
        assert(whole.len() == 2);
        assert(whole[0] == parts[0]);
        assert(whole.drop_first() =~= seq![p]);
        assert(joined(seq![p]) == p);
        assert(joined(parts) == parts[0]);
    } else {
        assert(whole[0] == parts[0]);
        assert(whole.drop_first() =~= parts.drop_first().push(p));
        lemma_joined_push(parts.drop_first(), p);
        assert(parts[0] + ", "@ + (joined(parts.drop_first()) + ", "@ + p) =~= (parts[0] + ", "@
            + joined(parts.drop_first())) + ", "@ + p);
    }
}

/// Renders the parts as `[p0, p1, ..., pn]`; no parts render as `[]`.
pub fn render(parts: &Vec<String>) -> (r: String)
    ensures
        r@ == "["@ + joined(views_of(parts@)) + "]"@,
{
    let mut out = String::new();
    out.append("[");
    proof {
        assert(out@ =~= "["@ + joined(views_of(parts@).take(0)));
    }
    let mut i: usize = 0;
    while i < parts.len()
        invariant
            i <= parts@.len(),
            out@ == "["@ + joined(views_of(parts@).take(i as int)),
        decreases parts@.len() - i,
    {
        if i > 0 {
            out.append(", ");
        }
        out.append(parts[i].as_str());
        proof {
            let views = views_of(parts@);
            lemma_joined_push(views.take(i as int), parts@[i as int]@);
            assert(views.take(i as int).push(parts@[i as int]@) =~= views.take(i as int + 1));
            assert(out@ =~= "["@ + joined(views.take(i as int + 1)));
        }
        i = i + 1;
    }
    out.append("]");
    proof {
        assert(views_of(parts@).take(parts@.len() as int) =~= views_of(parts@));
        assert(out@ =~= "["@ + joined(views_of(parts@)) + "]"@);
    }
    out
}

} // verus!
