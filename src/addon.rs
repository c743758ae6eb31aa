use vstd::prelude::*;

use crate::location::AddonLocation;
use crate::path::{join, join_path, sep};

verus! {

/// Errors raised while building the addon model.
#[derive(Clone, Debug, PartialEq, Eq)]
pub enum HEMTTError {
    /// The name holds a character outside the accepted sets.
    AddonInvalidName(String),
}

/// The standard characters of an addon name: lowercase ASCII letters, digits
/// and the underscore.
pub open spec fn is_standard_char(c: char) -> bool {
    ('a' <= c && c <= 'z') || ('0' <= c && c <= '9') || c == '_'
}

/// Characters that a name may hold but should not: uppercase ASCII letters
/// and the hyphen.
pub open spec fn is_discouraged_char(c: char) -> bool {
    ('A' <= c && c <= 'Z') || c == '-'
}

pub open spec fn is_allowed_char(c: char) -> bool {
    is_standard_char(c) || is_discouraged_char(c)
}

/// A name made only of allowed characters.
pub open spec fn is_valid_name(s: Seq<char>) -> bool {
    forall|i: int| 0 <= i < s.len() ==> is_allowed_char(#[trigger] s[i])
}

/// A name made only of standard characters.
pub open spec fn is_standard_name(s: Seq<char>) -> bool {
    forall|i: int| 0 <= i < s.len() ==> is_standard_char(#[trigger] s[i])
}

/// The discouraged characters of `s`, one entry per occurrence, in order.
pub open spec fn discouraged_in(s: Seq<char>) -> Seq<char> {
    s.filter(|c: char| is_discouraged_char(c))
}

fn is_standard(c: char) -> (r: bool)
    ensures
        r == is_standard_char(c),
{
    ('a' <= c && c <= 'z') || ('0' <= c && c <= '9') || c == '_'
}

fn is_discouraged(c: char) -> (r: bool)
    ensures
        r == is_discouraged_char(c),
{
    ('A' <= c && c <= 'Z') || c == '-'
}

/// Accepts a name made only of standard and discouraged characters, and
/// rejects any other.
pub fn validate_name(name: String) -> (r: Result<String, HEMTTError>)
    ensures
        is_valid_name(name@) ==> r == Ok::<String, HEMTTError>(name),
        !is_valid_name(name@) ==> r == Err::<String, HEMTTError>(
            HEMTTError::AddonInvalidName(name),
        ),
{
    let n = name.as_str().unicode_len();
    let mut i: usize = 0;
    while i < n
        invariant
            n == name@.len(),
            i <= n,
            forall|j: int| 0 <= j < i ==> is_allowed_char(#[trigger] name@[j]),
        decreases n - i,
    {
        let c = name.as_str().get_char(i);
        if !is_standard(c) && !is_discouraged(c) {
            return Err(HEMTTError::AddonInvalidName(name));
        }
        i += 1;
    }
    Ok(name)
}

/// The discouraged characters of a name, one per occurrence and in order:
/// each one deserves a warning.
pub fn discouraged_characters(name: &str) -> (r: Vec<char>)
    ensures
        r@ == discouraged_in(name@),
{
    let n = name.unicode_len();
    let mut r: Vec<char> = Vec::new();
    let mut i: usize = 0;
    while i < n
        invariant
            n == name@.len(),
            i <= n,
            r@ == discouraged_in(name@.subrange(0, i as int)),
        decreases n - i,
    {
        let c = name.get_char(i);
        let ghost next = name@.subrange(0, i + 1);
        assert(next.drop_last() =~= name@.subrange(0, i as int));
        assert(next.last() == c);
        proof {
            reveal(Seq::filter);
        }
        assert(discouraged_in(next) == if is_discouraged_char(c) {
            discouraged_in(next.drop_last()).push(c)
        } else {
            discouraged_in(next.drop_last())
        });
        if is_discouraged(c) {
            r.push(c);
        }
        i += 1;
    }
    assert(name@.subrange(0, n as int) =~= name@);
    r
}

/// `.pbo`, the extension of a packed addon.
pub open spec fn pbo_ext() -> Seq<char> {
    seq!['.', 'p', 'b', 'o']
}

/// The view of an optional string argument.
pub open spec fn opt_view(o: Option<&str>) -> Option<Seq<char>> {
    match o {
        Some(s) => Some(s@),
        None => None,
    }
}

/// `{prefix}_{name}.pbo` with a prefix, `{name}.pbo` without one.
pub open spec fn pbo_name(name: Seq<char>, prefix: Option<Seq<char>>) -> Seq<char> {
    match prefix {
        Some(p) => p + seq!['_'] + name + pbo_ext(),
        None => name + pbo_ext(),
    }
}

/// The folder of a mod of its own for one addon: `@{modname}_{name}`.
pub open spec fn standalone_folder(modname: Seq<char>, name: Seq<char>) -> Seq<char> {
    seq!['@'] + modname + seq!['_'] + name
}

/// `addons`, the folder that holds the packed addons of a mod.
pub open spec fn addons_folder() -> Seq<char> {
    seq!['a', 'd', 'd', 'o', 'n', 's']
}

/// One unit of content: a validated name and the category it belongs to.
/// Addons order by location first, then by name.
#[derive(Clone, Debug, PartialEq, Eq, PartialOrd, Ord, Hash)]
pub struct Addon {
    pub location: AddonLocation,
    pub name: String,
}

impl Addon {
    /// The name holds only allowed characters.
    pub open spec fn wf(self) -> bool {
        is_valid_name(self.name@)
    }

    /// `{location}/{name}`.
    pub open spec fn source_spec(self) -> Seq<char> {
        self.location.folder() + sep() + self.name@
    }

    pub open spec fn parent_spec(self, root: Seq<char>, standalone: Option<Seq<char>>) -> Seq<char> {
        let r = join(root, self.location.folder());
        match standalone {
            Some(m) => join(join(r, standalone_folder(m, self.name@)), addons_folder()),
            None => r,
        }
    }

    pub open spec fn destination_spec(
        self,
        root: Seq<char>,
        prefix: Option<Seq<char>>,
        standalone: Option<Seq<char>>,
    ) -> Seq<char> {
        join(self.parent_spec(root, standalone), pbo_name(self.name@, prefix))
    }

    /// What `new` returns.
    pub open spec fn new_spec(name: String, location: AddonLocation) -> Result<Self, HEMTTError> {
        if is_valid_name(name@) {
            Ok(Addon { name, location })
        } else {
            Err(HEMTTError::AddonInvalidName(name))
        }
    }

    /// An addon with the given name and location, once the name is accepted.
    pub fn new(name: String, location: AddonLocation) -> (r: Result<Self, HEMTTError>)
        ensures
            r == Self::new_spec(name, location),
    {
        let name = validate_name(name)?;
        Ok(Addon { name, location })
    }

    /// `new`, together with one warning for each discouraged character of
    /// the name, in order.
    pub fn new_with_warnings(name: String, location: AddonLocation) -> (r: (
        Result<Self, HEMTTError>,
        Vec<char>,
    ))
        ensures
            r.0 == Self::new_spec(name, location),
            r.1@ == discouraged_in(name@),
    {
        let warnings = discouraged_characters(name.as_str());
        (Self::new(name, location), warnings)
    }

    /// The addon named `name` in the first first-class location whose folder
    /// holds it. `present[i]` says whether the folder of the `i`-th location of
    /// `AddonLocation::first_class` holds a folder named `name`.
    pub fn locate(name: String, present: &Vec<bool>) -> (r: Option<Self>)
        requires
            present@.len() == 3,
        ensures
            r is None <==> forall|i: int| 0 <= i < 3 ==> !(#[trigger] present@[i]),
            r matches Some(a) ==> a.name == name && exists|i: int|
                0 <= i < 3 && #[trigger] present@[i] && a.location == AddonLocation::first_class_spec()[i]
                    && forall|j: int| 0 <= j < i ==> !(#[trigger] present@[j]),
    {
        let mut i: usize = 0;
        while i < 3
            invariant
                i <= 3,
                present@.len() == 3,
                forall|j: int| 0 <= j < i ==> !(#[trigger] present@[j]),
            decreases 3 - i,
        {
            if present[i] {
                let location = AddonLocation::first_class_at(i);
                return Some(Addon { name, location });
            }
            i += 1;
        }
        None
    }

    /// Path to the addon folder: `{location}/{name}`.
    pub fn source(&self) -> (r: String)
        ensures
            r@ == self.source_spec(),
    {
        proof {
            reveal_strlit("/");
        }
        let mut r = self.location.to_string();
        r.append("/");
        r.append(self.name.as_str());
        r
    }

    /// File name of the packed addon: `{prefix}_{name}.pbo` with a prefix,
    /// `{name}.pbo` without one.
    pub fn pbo(&self, prefix: Option<&str>) -> (r: String)
        ensures
            r@ == pbo_name(self.name@, opt_view(prefix)),
    {
        proof {
            reveal_strlit("_");
            reveal_strlit(".pbo");
        }
        let mut r = String::new();
        if let Some(p) = prefix {
            r.append(p);
            r.append("_");
        }
        r.append(self.name.as_str());
        r.append(".pbo");
        r
    }

    /// Whether asking for a standalone mod breaks the policy: core addons
    /// are meant to ship as part of a larger mod.
    pub fn standalone_discouraged(&self, standalone: Option<&str>) -> (r: bool)
        ensures
            r == (standalone is Some && self.location is Addons),
    {
        standalone.is_some() && matches!(self.location, AddonLocation::Addons)
    }

    /// Folder holding the released addon: `{root}/{location}`, followed by
    /// `@{modname}_{name}/addons` when the addon is a mod of its own.
    pub fn destination_parent(&self, destination_root: &str, standalone: Option<&str>) -> (r: String)
        ensures
            r@ == self.parent_spec(destination_root@, opt_view(standalone)),
    {
        proof {
            reveal_strlit("@");
            reveal_strlit("_");
            reveal_strlit("addons");
        }
        let folder = self.location.to_string();
        let r = join_path(destination_root, folder.as_str());
        match standalone {
            Some(modname) => {
                let mut own = String::from_str("@");
                own.append(modname);
                own.append("_");
                own.append(self.name.as_str());
                let r = join_path(r.as_str(), own.as_str());
                join_path(r.as_str(), "addons")
            },
            None => r,
        }
    }

    /// `destination_parent`, together with whether the standalone request
    /// breaks the policy and deserves a warning.
    pub fn destination_parent_with_policy(
        &self,
        destination_root: &str,
        standalone: Option<&str>,
    ) -> (r: (String, bool))
        ensures
            r.0@ == self.parent_spec(destination_root@, opt_view(standalone)),
            r.1 == (standalone is Some && self.location is Addons),
    {
        let parent = self.destination_parent(destination_root, standalone);
        (parent, self.standalone_discouraged(standalone))
    }

    /// File path of the released addon: its packed file name in
    /// `destination_parent`.
    pub fn destination(
        &self,
        destination_root: &str,
        prefix: Option<&str>,
        standalone: Option<&str>,
    ) -> (r: String)
        ensures
            r@ == self.destination_spec(destination_root@, opt_view(prefix), opt_view(standalone)),
    {
        let parent = self.destination_parent(destination_root, standalone);
        let file = self.pbo(prefix);
        join_path(parent.as_str(), file.as_str())
    }
}

/// A name of standard characters only is accepted and kept as it is.
pub proof fn law_standard_name_round_trips(name: String, location: AddonLocation)
    requires
        is_standard_name(name@),
    ensures
        Addon::new_spec(name, location) matches Ok(a) && a.name == name && a.location == location,
        discouraged_in(name@).len() == 0,
{
    assert(is_valid_name(name@));
    let pred = |c: char| is_discouraged_char(c);
    assert forall|i: int| 0 <= i < name@.len() implies !pred(name@[i]) by {
        assert(is_standard_char(name@[i]));
    }
    name@.lemma_all_neg_filter_empty(pred);
}

/// A name of allowed characters that holds discouraged ones is accepted, and
/// its warnings are exactly its discouraged characters, one per occurrence.
pub proof fn law_discouraged_name_warns(name: String, location: AddonLocation, i: int)
    requires
        is_valid_name(name@),
        0 <= i < name@.len(),
        is_discouraged_char(name@[i]),
    ensures
        Addon::new_spec(name, location) matches Ok(a) && a.name == name,
        discouraged_in(name@).len() >= 1,
        discouraged_in(name@).contains(name@[i]),
        forall|j: int|
            0 <= j < discouraged_in(name@).len() ==> is_discouraged_char(
                #[trigger] discouraged_in(name@)[j],
            ),
{
    let pred = |c: char| is_discouraged_char(c);
    name@.lemma_filter_contains(pred, i);
    assert forall|j: int| 0 <= j < discouraged_in(name@).len() implies is_discouraged_char(
        #[trigger] discouraged_in(name@)[j],
    ) by {
        name@.lemma_filter_pred(pred, j);
    }
}

/// A name holding any other character is refused with `AddonInvalidName`.
pub proof fn law_invalid_name_refused(name: String, location: AddonLocation, i: int)
    requires
        0 <= i < name@.len(),
        !is_allowed_char(name@[i]),
    ensures
        Addon::new_spec(name, location) == Err::<Addon, HEMTTError>(
            HEMTTError::AddonInvalidName(name),
        ),
{
    assert(!is_valid_name(name@));
}

/// `s` holds no `x`.
pub open spec fn lacks(s: Seq<char>, x: char) -> bool {
    forall|i: int| 0 <= i < s.len() ==> s[i] != x
}

/// A location whose folder is one plain, non-empty component that no other
/// location shares.
pub open spec fn distinct_folder(l: AddonLocation) -> bool {
    &&& l.folder().len() > 0
    &&& lacks(l.folder(), '/')
    &&& l is Custom ==> {
        &&& l.folder() != AddonLocation::Addons.folder()
        &&& l.folder() != AddonLocation::Optionals.folder()
        &&& l.folder() != AddonLocation::Compats.folder()
    }
}

/// An optional prefix or mod name without separators.
pub open spec fn plain_part(o: Option<Seq<char>>) -> bool {
    match o {
        Some(s) => lacks(s, '/') && lacks(s, '_'),
        None => true,
    }
}

/// An optional prefix or mod name without path separators.
pub open spec fn no_slash(o: Option<Seq<char>>) -> bool {
    match o {
        Some(s) => lacks(s, '/'),
        None => true,
    }
}

/// What `root` contributes in front of the first component joined to it.
pub open spec fn root_prefix(root: Seq<char>) -> Seq<char> {
    if root.len() == 0 {
        root
    } else if root.last() == '/' {
        root
    } else {
        root + sep()
    }
}

/// What follows the location's folder in a destination.
pub open spec fn destination_tail(
    name: Seq<char>,
    prefix: Option<Seq<char>>,
    standalone: Option<Seq<char>>,
) -> Seq<char> {
    match standalone {
        Some(m) => standalone_folder(m, name) + sep() + addons_folder() + sep() + pbo_name(
            name,
            prefix,
        ),
        None => pbo_name(name, prefix),
    }
}

proof fn lemma_split_first(a1: Seq<char>, b1: Seq<char>, a2: Seq<char>, b2: Seq<char>, x: char)
    requires
        lacks(a1, x),
        lacks(a2, x),
        a1 + seq![x] + b1 == a2 + seq![x] + b2,
    ensures
        a1 == a2,
        b1 == b2,
{
    let s = a1 + seq![x] + b1;
    let t = a2 + seq![x] + b2;
    if a1.len() < a2.len() {
        assert(s[a1.len() as int] == x);
        assert(t[a1.len() as int] == a2[a1.len() as int]);
    } else if a2.len() < a1.len() {
        assert(t[a2.len() as int] == x);
        assert(s[a2.len() as int] == a1[a2.len() as int]);
    }
    assert(a1 =~= s.subrange(0, a1.len() as int));
    assert(a2 =~= t.subrange(0, a2.len() as int));
    assert(b1 =~= s.subrange(a1.len() as int + 1, s.len() as int));
    assert(b2 =~= t.subrange(a2.len() as int + 1, t.len() as int));
}

proof fn lemma_cancel_front(r: Seq<char>, a: Seq<char>, b: Seq<char>)
    requires
        r + a == r + b,
    ensures
        a == b,
{
    assert(a =~= (r + a).subrange(r.len() as int, (r + a).len() as int));
    assert(b =~= (r + b).subrange(r.len() as int, (r + b).len() as int));
}

proof fn lemma_cancel_back(a: Seq<char>, b: Seq<char>, t: Seq<char>)
    requires
        a + t == b + t,
    ensures
        a == b,
{
    assert(a =~= (a + t).subrange(0, a.len() as int));
    assert(b =~= (b + t).subrange(0, b.len() as int));
}

proof fn lemma_valid_lacks_slash(name: Seq<char>)
    requires
        is_valid_name(name),
    ensures
        lacks(name, '/'),
{
    assert forall|i: int| 0 <= i < name.len() implies name[i] != '/' by {
        assert(is_allowed_char(name[i]));
    }
}

proof fn lemma_pbo_lacks_slash(name: Seq<char>, prefix: Option<Seq<char>>)
    requires
        lacks(name, '/'),
        no_slash(prefix),
    ensures
        lacks(pbo_name(name, prefix), '/'),
{
    let p = pbo_name(name, prefix);
    assert forall|i: int| 0 <= i < p.len() implies p[i] != '/' by {
        match prefix {
            Some(q) => {
                if i >= q.len() + 1 && i < q.len() + 1 + name.len() {
                    assert(p[i] == name[i - q.len() - 1]);
                }
            },
            None => {
                if i < name.len() {
                    assert(p[i] == name[i]);
                }
            },
        }
    }
}

proof fn lemma_destination_shape(
    a: Addon,
    root: Seq<char>,
    prefix: Option<Seq<char>>,
    standalone: Option<Seq<char>>,
)
    requires
        a.wf(),
        distinct_folder(a.location),
    ensures
        a.destination_spec(root, prefix, standalone) == root_prefix(root) + (a.location.folder()
            + sep() + destination_tail(a.name@, prefix, standalone)),
{
    let f = a.location.folder();
    let n = a.name@;
    let base = join(root, f);
    assert(base =~= root_prefix(root) + f);
    assert(base.last() == f.last());
    let pbo = pbo_name(n, prefix);
    match standalone {
        Some(m) => {
            let own = standalone_folder(m, n);
            let b2 = join(base, own);
            assert(b2 =~= base + sep() + own);
            if n.len() > 0 {
                assert(own.last() == n.last());
                assert(is_allowed_char(n[n.len() - 1]));
            }
            assert(b2.last() == own.last());
            let b3 = join(b2, addons_folder());
            assert(b3 =~= b2 + sep() + addons_folder());
            assert(b3.last() == 's');
            assert(join(b3, pbo) =~= b3 + sep() + pbo);
            assert(join(b3, pbo) =~= root_prefix(root) + (f + sep() + destination_tail(
                n,
                prefix,
                standalone,
            )));
        },
        None => {
            assert(join(base, pbo) =~= base + sep() + pbo);
            assert(join(base, pbo) =~= root_prefix(root) + (f + sep() + destination_tail(
                n,
                prefix,
                standalone,
            )));
        },
    }
}

proof fn lemma_pbo_injective(n1: Seq<char>, n2: Seq<char>, p1: Option<Seq<char>>, p2: Option<Seq<char>>)
    requires
        plain_part(p1),
        plain_part(p2),
        p1 is Some <==> p2 is Some,
        pbo_name(n1, p1) == pbo_name(n2, p2),
    ensures
        n1 == n2,
        p1 == p2,
{
    match (p1, p2) {
        (Some(x1), Some(x2)) => {
            assert(pbo_name(n1, p1) =~= x1 + seq!['_'] + (n1 + pbo_ext()));
            assert(pbo_name(n2, p2) =~= x2 + seq!['_'] + (n2 + pbo_ext()));
            lemma_split_first(x1, n1 + pbo_ext(), x2, n2 + pbo_ext(), '_');
            lemma_cancel_back(n1, n2, pbo_ext());
        },
        _ => {
            lemma_cancel_back(n1, n2, pbo_ext());
        },
    }
}

proof fn lemma_pbo_same_name(n: Seq<char>, p1: Option<Seq<char>>, p2: Option<Seq<char>>)
    requires
        pbo_name(n, p1) == pbo_name(n, p2),
    ensures
        p1 == p2,
{
    let rest = n + pbo_ext();
    match (p1, p2) {
        (Some(x1), Some(x2)) => {
            assert(pbo_name(n, p1) =~= (x1 + seq!['_']) + rest);
            assert(pbo_name(n, p2) =~= (x2 + seq!['_']) + rest);
            lemma_cancel_back(x1 + seq!['_'], x2 + seq!['_'], rest);
            lemma_cancel_back(x1, x2, seq!['_']);
        },
        (Some(x1), None) => {
            assert(pbo_name(n, p1).len() == x1.len() + 1 + n.len() + pbo_ext().len());
            assert(pbo_name(n, p2).len() == n.len() + pbo_ext().len());
        },
        (None, Some(x2)) => {
            assert(pbo_name(n, p2).len() == x2.len() + 1 + n.len() + pbo_ext().len());
            assert(pbo_name(n, p1).len() == n.len() + pbo_ext().len());
        },
        (None, None) => {},
    }
}

proof fn lemma_pbo_same_prefix(n1: Seq<char>, n2: Seq<char>, p: Option<Seq<char>>)
    requires
        pbo_name(n1, p) == pbo_name(n2, p),
    ensures
        n1 == n2,
{
    match p {
        Some(x) => {
            assert(pbo_name(n1, p) =~= (x + seq!['_']) + (n1 + pbo_ext()));
            assert(pbo_name(n2, p) =~= (x + seq!['_']) + (n2 + pbo_ext()));
            lemma_cancel_front(x + seq!['_'], n1 + pbo_ext(), n2 + pbo_ext());
        },
        None => {},
    }
    lemma_cancel_back(n1, n2, pbo_ext());
}

proof fn lemma_standalone_same_name(m1: Seq<char>, m2: Seq<char>, n: Seq<char>)
    requires
        standalone_folder(m1, n) == standalone_folder(m2, n),
    ensures
        m1 == m2,
{
    assert(standalone_folder(m1, n) =~= (seq!['@'] + m1 + seq!['_']) + n);
    assert(standalone_folder(m2, n) =~= (seq!['@'] + m2 + seq!['_']) + n);
    lemma_cancel_back(seq!['@'] + m1 + seq!['_'], seq!['@'] + m2 + seq!['_'], n);
    lemma_cancel_back(seq!['@'] + m1, seq!['@'] + m2, seq!['_']);
    lemma_cancel_front(seq!['@'], m1, m2);
}

/// Two standalone tails agree on the mod folder and on the file name.
proof fn lemma_tail_split_standalone(
    n1: Seq<char>,
    n2: Seq<char>,
    p1: Option<Seq<char>>,
    p2: Option<Seq<char>>,
    m1: Seq<char>,
    m2: Seq<char>,
)
    requires
        lacks(n1, '/'),
        lacks(n2, '/'),
        lacks(m1, '/'),
        lacks(m2, '/'),
        destination_tail(n1, p1, Some(m1)) == destination_tail(n2, p2, Some(m2)),
    ensures
        standalone_folder(m1, n1) == standalone_folder(m2, n2),
        pbo_name(n1, p1) == pbo_name(n2, p2),
{
    let q1 = pbo_name(n1, p1);
    let q2 = pbo_name(n2, p2);
    let o1 = standalone_folder(m1, n1);
    let o2 = standalone_folder(m2, n2);
    assert(lacks(o1, '/'));
    assert(lacks(o2, '/'));
    let r1 = addons_folder() + sep() + q1;
    let r2 = addons_folder() + sep() + q2;
    assert(destination_tail(n1, p1, Some(m1)) =~= o1 + seq!['/'] + r1);
    assert(destination_tail(n2, p2, Some(m2)) =~= o2 + seq!['/'] + r2);
    lemma_split_first(o1, r1, o2, r2, '/');
    lemma_cancel_front(addons_folder() + sep(), q1, q2);
}

proof fn lemma_tail_both_standalone(
    n1: Seq<char>,
    n2: Seq<char>,
    p1: Option<Seq<char>>,
    p2: Option<Seq<char>>,
    m1: Seq<char>,
    m2: Seq<char>,
)
    requires
        lacks(n1, '/'),
        lacks(n2, '/'),
        plain_part(p1),
        plain_part(p2),
        plain_part(Some(m1)),
        plain_part(Some(m2)),
        destination_tail(n1, p1, Some(m1)) == destination_tail(n2, p2, Some(m2)),
    ensures
        n1 == n2,
        p1 == p2,
        m1 == m2,
{
    lemma_tail_split_standalone(n1, n2, p1, p2, m1, m2);
    let o1 = standalone_folder(m1, n1);
    let o2 = standalone_folder(m2, n2);
    assert(o1 =~= seq!['@'] + (m1 + seq!['_'] + n1));
    assert(o2 =~= seq!['@'] + (m2 + seq!['_'] + n2));
    lemma_cancel_front(seq!['@'], m1 + seq!['_'] + n1, m2 + seq!['_'] + n2);
    lemma_split_first(m1, n1, m2, n2, '_');
    lemma_pbo_same_name(n1, p1, p2);
}

proof fn lemma_tail_mixed(
    n1: Seq<char>,
    n2: Seq<char>,
    p1: Option<Seq<char>>,
    p2: Option<Seq<char>>,
    m1: Seq<char>,
)
    requires
        lacks(n2, '/'),
        no_slash(p2),
    ensures
        destination_tail(n1, p1, Some(m1)) != destination_tail(n2, p2, None),
{
    lemma_pbo_lacks_slash(n2, p2);
    let t1 = destination_tail(n1, p1, Some(m1));
    let k = m1.len() as int + n1.len() as int + 2;
    assert(t1[k] == '/');
}

proof fn lemma_tail_injective(
    n1: Seq<char>,
    n2: Seq<char>,
    p1: Option<Seq<char>>,
    p2: Option<Seq<char>>,
    s1: Option<Seq<char>>,
    s2: Option<Seq<char>>,
)
    requires
        lacks(n1, '/'),
        lacks(n2, '/'),
        plain_part(p1),
        plain_part(p2),
        plain_part(s1),
        plain_part(s2),
        (s1 is None && s2 is None) ==> (p1 is Some <==> p2 is Some),
        destination_tail(n1, p1, s1) == destination_tail(n2, p2, s2),
    ensures
        n1 == n2,
        p1 == p2,
        s1 == s2,
{
    match (s1, s2) {
        (Some(m1), Some(m2)) => {
            lemma_tail_both_standalone(n1, n2, p1, p2, m1, m2);
        },
        (Some(m1), None) => {
            lemma_tail_mixed(n1, n2, p1, p2, m1);
        },
        (None, Some(m2)) => {
            lemma_tail_mixed(n2, n1, p2, p1, m2);
        },
        (None, None) => {
            lemma_pbo_injective(n1, n2, p1, p2);
        },
    }
}

/// Equal destinations share the location folder and what follows it.
proof fn lemma_destination_split(
    a1: Addon,
    a2: Addon,
    root: Seq<char>,
    p1: Option<Seq<char>>,
    p2: Option<Seq<char>>,
    s1: Option<Seq<char>>,
    s2: Option<Seq<char>>,
)
    requires
        a1.wf(),
        a2.wf(),
        distinct_folder(a1.location),
        distinct_folder(a2.location),
        a1.destination_spec(root, p1, s1) == a2.destination_spec(root, p2, s2),
    ensures
        a1.location.folder() == a2.location.folder(),
        !(a1.location is Custom) ==> a1.location == a2.location,
        destination_tail(a1.name@, p1, s1) == destination_tail(a2.name@, p2, s2),
        lacks(a1.name@, '/'),
        lacks(a2.name@, '/'),
{
    let (f1, f2) = (a1.location.folder(), a2.location.folder());
    lemma_destination_shape(a1, root, p1, s1);
    lemma_destination_shape(a2, root, p2, s2);
    let t1 = destination_tail(a1.name@, p1, s1);
    let t2 = destination_tail(a2.name@, p2, s2);
    lemma_cancel_front(root_prefix(root), f1 + sep() + t1, f2 + sep() + t2);
    lemma_split_first(f1, t1, f2, t2, '/');
    lemma_valid_lacks_slash(a1.name@);
    lemma_valid_lacks_slash(a2.name@);
    if !(a1.location is Custom) {
        assert(AddonLocation::Addons.folder() != AddonLocation::Optionals.folder());
        assert(AddonLocation::Addons.folder() != AddonLocation::Compats.folder());
        assert(AddonLocation::Optionals.folder() != AddonLocation::Compats.folder());
    }
}

/// Two configurations that share no ambiguous reading of the path have the
/// same destination only when they are the same configuration.
pub proof fn law_destination_injective(
    a1: Addon,
    a2: Addon,
    root: Seq<char>,
    p1: Option<Seq<char>>,
    p2: Option<Seq<char>>,
    s1: Option<Seq<char>>,
    s2: Option<Seq<char>>,
)
    requires
        a1.wf(),
        a2.wf(),
        distinct_folder(a1.location),
        distinct_folder(a2.location),
        plain_part(p1),
        plain_part(p2),
        plain_part(s1),
        plain_part(s2),
        (s1 is None && s2 is None) ==> (p1 is Some <==> p2 is Some),
        a1.destination_spec(root, p1, s1) == a2.destination_spec(root, p2, s2),
    ensures
        a1.name@ == a2.name@,
        a1.location.folder() == a2.location.folder(),
        !(a1.location is Custom) ==> a1.location == a2.location,
        p1 == p2,
        s1 == s2,
{
    lemma_destination_split(a1, a2, root, p1, p2, s1, s2);
    lemma_tail_injective(a1.name@, a2.name@, p1, p2, s1, s2);
}

/// Under one prefix shared by the whole release, addons of distinct names,
/// locations or standalone mods have distinct destinations.
pub proof fn law_destination_injective_shared_prefix(
    a1: Addon,
    a2: Addon,
    root: Seq<char>,
    prefix: Option<Seq<char>>,
    s1: Option<Seq<char>>,
    s2: Option<Seq<char>>,
)
    requires
        a1.wf(),
        a2.wf(),
        distinct_folder(a1.location),
        distinct_folder(a2.location),
        no_slash(prefix),
        no_slash(s1),
        no_slash(s2),
        a1.destination_spec(root, prefix, s1) == a2.destination_spec(root, prefix, s2),
    ensures
        a1.name@ == a2.name@,
        a1.location.folder() == a2.location.folder(),
        !(a1.location is Custom) ==> a1.location == a2.location,
        s1 == s2,
{
    lemma_destination_split(a1, a2, root, prefix, prefix, s1, s2);
    let (n1, n2) = (a1.name@, a2.name@);
    match (s1, s2) {
        (Some(m1), Some(m2)) => {
            lemma_tail_split_standalone(n1, n2, prefix, prefix, m1, m2);
            lemma_pbo_same_prefix(n1, n2, prefix);
            lemma_standalone_same_name(m1, m2, n1);
        },
        (Some(m1), None) => {
            lemma_tail_mixed(n1, n2, prefix, prefix, m1);
        },
        (None, Some(m2)) => {
            lemma_tail_mixed(n2, n1, prefix, prefix, m2);
        },
        (None, None) => {
            lemma_pbo_same_prefix(n1, n2, prefix);
        },
    }
}

/// One addon released under distinct prefixes or standalone mods lands at
/// distinct destinations.
pub proof fn law_destination_injective_same_addon(
    a: Addon,
    root: Seq<char>,
    p1: Option<Seq<char>>,
    p2: Option<Seq<char>>,
    s1: Option<Seq<char>>,
    s2: Option<Seq<char>>,
)
    requires
        a.wf(),
        distinct_folder(a.location),
        no_slash(p1),
        no_slash(p2),
        no_slash(s1),
        no_slash(s2),
        a.destination_spec(root, p1, s1) == a.destination_spec(root, p2, s2),
    ensures
        p1 == p2,
        s1 == s2,
{
    lemma_destination_split(a, a, root, p1, p2, s1, s2);
    let n = a.name@;
    match (s1, s2) {
        (Some(m1), Some(m2)) => {
            lemma_tail_split_standalone(n, n, p1, p2, m1, m2);
            lemma_pbo_same_name(n, p1, p2);
            lemma_standalone_same_name(m1, m2, n);
        },
        (Some(m1), None) => {
            lemma_tail_mixed(n, n, p1, p2, m1);
        },
        (None, Some(m2)) => {
            lemma_tail_mixed(n, n, p2, p1, m2);
        },
        (None, None) => {
            lemma_pbo_same_name(n, p1, p2);
        },
    }
}

} // verus!
