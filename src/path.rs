use vstd::prelude::*;

verus! {

/// The separator placed between two path components.
pub open spec fn sep() -> Seq<char> {
    seq!['/']
}

/// `part` appended to `base` as a new component: an empty base gives `part`
/// alone, and no second separator is added after a trailing one.
pub open spec fn join(base: Seq<char>, part: Seq<char>) -> Seq<char> {
    if base.len() == 0 {
        part
    } else if base.last() == '/' {
        base + part
    } else {
        base + sep() + part
    }
}

/// Appends `part` to the path `base` as a new component.
pub fn join_path(base: &str, part: &str) -> (r: String)
    ensures
        r@ == join(base@, part@),
{
    proof {
        reveal_strlit("/");
    }
    let n = base.unicode_len();
    let mut r = String::from_str(base);
    if n > 0 && base.get_char(n - 1) != '/' {
        r.append("/");
    }
    r.append(part);
    r
}

} // verus!
