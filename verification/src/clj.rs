//! Names of Clojure namespaces and the registry that tracks which ones have
//! been loaded. The evaluation of Clojure code happens outside this crate;
//! here a namespace is its name.

use vstd::prelude::*;

verus! {

/// A Clojure namespace, known by its name.
#[derive(Debug, Clone, PartialEq, Eq)]
pub struct CljNs {
    pub ns: String,
}

impl CljNs {
    /// A namespace of the given name.
    pub fn new(ns: String) -> (r: CljNs)
        ensures
            r.ns@ == ns@,
    {
        CljNs { ns }
    }

    /// The namespace's name.
    pub fn name(&self) -> (r: &str)
        ensures
            r@ == self.ns@,
    {
        self.ns.as_str()
    }
}

/// The core namespace, `clojure.core`.
#[derive(Debug, Clone, PartialEq, Eq)]
pub struct CljCore {
    pub ns: &'static str,
}

impl CljCore {
    /// The namespace's name.
    pub fn name(&self) -> (r: &str)
        ensures
            r@ == self.ns@,
    {
        self.ns
    }
}

impl Default for CljCore {
    /// The default core namespace is `clojure.core`.
    fn default() -> (r: CljCore)
        ensures
            r.ns@ == "clojure.core"@,
    {
        CljCore { ns: "clojure.core" }
    }
}

/// A namespace form `(ns <name>` begins at `i`.
pub open spec fn ns_form_at(s: Seq<char>, i: int) -> bool {
    0 <= i && i + 4 <= s.len() && s.subrange(i, i + 4) == "(ns "@
}

/// No namespace form begins before `i`.
pub open spec fn no_ns_form_before(s: Seq<char>, i: int) -> bool {
    forall|j: int| 0 <= j < i ==> !ns_form_at(s, j)
}

/// A character that ends a namespace name.
pub open spec fn spec_ns_stop(c: char) -> bool {
    c == ' ' || c == '\t' || c == '\n' || c == '\r' || c == ')'
}

/// The end of the name that starts at `from`: the first stopping character
/// at or after `from`, or the end of the text.
pub open spec fn first_stop(s: Seq<char>, from: int) -> int
    decreases s.len() - from,
{
    if from < 0 || from >= s.len() {
        s.len() as int
    } else if spec_ns_stop(s[from]) {
        from
    } else {
        first_stop(s, from + 1)
    }
}

/// Whether a character ends a namespace name.
fn is_ns_stop(c: char) -> (r: bool)
    ensures
        r == spec_ns_stop(c),
{
    c == ' ' || c == '\t' || c == '\n' || c == '\r' || c == ')'
}

/// Read the namespace name out of Clojure source text: the word after the
/// first `(ns ` form, up to the first whitespace or closing parenthesis.
/// Returns nothing when the text declares no namespace.
#[verifier::loop_isolation(false)]
pub fn parse_code_and_get_ns_name(s: &str) -> (r: Option<String>)
    ensures
        r is Some <==> exists|i: int| ns_form_at(s@, i),
        r matches Some(name) ==> exists|i: int|
            #![trigger ns_form_at(s@, i)]
            {
                &&& ns_form_at(s@, i)
                &&& no_ns_form_before(s@, i)
                &&& name@ == s@.subrange(i + 4, first_stop(s@, i + 4))
            },
{
    let n = s.unicode_len();
    let mut i: usize = 0;
    let mut found: bool = false;
    while !found && n >= 4 && i <= n - 4
        invariant
            n == s@.len(),
            i <= n,
            !found ==> no_ns_form_before(s@, i as int),
            found ==> ns_form_at(s@, i as int) && no_ns_form_before(s@, i as int),
        decreases n - i + (if found {
            0int
        } else {
            1int
        }),
    {
        let c0 = s.get_char(i);
        let c1 = s.get_char(i + 1);
        let c2 = s.get_char(i + 2);
        let c3 = s.get_char(i + 3);
        if c0 == '(' && c1 == 'n' && c2 == 's' && c3 == ' ' {
            found = true;
            proof {
                reveal_strlit("(ns ");
                assert(s@.subrange(i as int, i + 4) =~= "(ns "@);
            }
        } else {
            proof {
                reveal_strlit("(ns ");
                assert(!ns_form_at(s@, i as int)) by {
                    if ns_form_at(s@, i as int) {
                        assert(s@.subrange(i as int, i + 4)[0] == s@[i as int]);
                        assert(s@.subrange(i as int, i + 4)[1] == s@[i + 1]);
                        assert(s@.subrange(i as int, i + 4)[2] == s@[i + 2]);
                        assert(s@.subrange(i as int, i + 4)[3] == s@[i + 3]);
                    }
                }
            }
            i = i + 1;
        }
    }
    if !found {
        proof {
            assert forall|j: int| !ns_form_at(s@, j) by {
                if ns_form_at(s@, j) {
                    assert(j + 4 <= n);
                    assert(j < i || j >= i);
                }
            }
        }
        return None;
    }
    let start = i + 4;
    let mut end: usize = start;
    while end < n && !is_ns_stop(s.get_char(end))
        invariant
            start <= end <= n,
            n == s@.len(),
            forall|k: int| start <= k < end ==> !spec_ns_stop(s@[k]),
        decreases n - end,
    {
        end = end + 1;
    }
    proof {
        lemma_first_stop(s@, start as int, end as int);
    }
    let name = s.substring_char(start, end);
    Some(name.to_owned())
}

/// When no stop stands in `[from, end)` and `end` is a stop or the text's
/// end, `end` is the first stop.
proof fn lemma_first_stop(s: Seq<char>, from: int, end: int)
    requires
        0 <= from <= end <= s.len(),
        forall|k: int| from <= k < end ==> !spec_ns_stop(s[k]),
        end == s.len() || spec_ns_stop(s[end]),
    ensures
        first_stop(s, from) == end,
    decreases end - from,
{
    if from < end {
        lemma_first_stop(s, from + 1, end);
    }
}

/// The registry of loaded namespaces. The code itself is evaluated outside
/// this crate; the registry remembers which names have been registered.
#[derive(Debug, PartialEq, Eq)]
pub struct NsRegister {
    pub nss: Vec<String>,
}

impl NsRegister {
    /// Whether a name is registered.
    pub open spec fn spec_contains(self, name: Seq<char>) -> bool {
        exists|i: int| 0 <= i < self.nss@.len() && self.nss@[i]@ == name
    }

    /// An empty registry.
    pub fn new() -> (r: NsRegister)
        ensures
            r.nss@.len() == 0,
            forall|name: Seq<char>| !r.spec_contains(name),
    {
        NsRegister { nss: Vec::new() }
    }

    /// Whether a name is registered.
    fn contains_name(&self, name: &str) -> (r: bool)
        ensures
            r == self.spec_contains(name@),
    {
        let owned = name.to_owned();
        let mut i: usize = 0;
        while i < self.nss.len()
            invariant
                owned@ == name@,
                i <= self.nss@.len(),
                forall|j: int| 0 <= j < i ==> self.nss@[j]@ != name@,
            decreases self.nss@.len() - i,
        {
            let e = &self.nss[i];
            if *e == owned {
                proof {
                    assert(self.nss@[i as int]@ == name@);
                }
                return true;
            }
            i = i + 1;
        }
        false
    }

    /// Register the namespace that the given Clojure code declares. The code
    /// must declare one: a text without a `(ns ...)` form cannot be
    /// registered.
    pub fn register(&mut self, code: &str) -> (r: Result<(), &'static str>)
        requires
            exists|i: int| ns_form_at(code@, i),
        ensures
            r is Ok,
            exists|i: int|
                #![trigger ns_form_at(code@, i)]
                {
                    &&& ns_form_at(code@, i)
                    &&& no_ns_form_before(code@, i)
                    &&& final(self).spec_contains(
                        code@.subrange(i + 4, first_stop(code@, i + 4)),
                    )
                },
            forall|name: Seq<char>|
                old(self).spec_contains(name) ==> final(self).spec_contains(name),
            forall|name: Seq<char>|
                final(self).spec_contains(name) ==> old(self).spec_contains(name) || (exists|
                    i: int,
                |
                    #![trigger ns_form_at(code@, i)]
                    ns_form_at(code@, i) && no_ns_form_before(code@, i) && name == code@.subrange(
                        i + 4,
                        first_stop(code@, i + 4),
                    )),
    {
        let parsed = parse_code_and_get_ns_name(code);
        let name = match parsed {
            Some(n) => n,
            None => {
                proof {
                    assert(false);
                }
                return Err("no namespace form");
            },
        };
        let ghost old_nss = self.nss@;
        if !self.contains_name(name.as_str()) {
            self.nss.push(name);
            proof {
                assert forall|nm: Seq<char>|
                    old(self).spec_contains(nm) implies final(self).spec_contains(nm) by {
                    let j = choose|j: int| 0 <= j < old_nss.len() && old_nss[j]@ == nm;
                    assert(final(self).nss@[j]@ == nm);
                }
                assert(final(self).nss@[old_nss.len() as int]@ == final(self).nss@.last()@);
            }
        }
        Ok(())
    }

    /// Look a registered namespace up by name.
    pub fn get(&self, ns_name: &str) -> (r: Option<CljNs>)
        ensures
            r is Some <==> self.spec_contains(ns_name@),
            r matches Some(ns) ==> ns.ns@ == ns_name@,
    {
        if self.contains_name(ns_name) {
            Some(CljNs { ns: ns_name.to_owned() })
        } else {
            None
        }
    }

    /// Look a namespace up, registering its bare name first when it is
    /// missing.
    pub fn get_or_register(&mut self, ns_name: &str) -> (r: CljNs)
        ensures
            r.ns@ == ns_name@,
            final(self).spec_contains(ns_name@),
            forall|name: Seq<char>|
                final(self).spec_contains(name) <==> (old(self).spec_contains(name) || name
                    == ns_name@),
    {
        let ghost old_nss = self.nss@;
        if !self.contains_name(ns_name) {
            self.nss.push(ns_name.to_owned());
            proof {
                assert(final(self).nss@[old_nss.len() as int]@ == ns_name@);
                assert forall|nm: Seq<char>|
                    old(self).spec_contains(nm) implies final(self).spec_contains(nm) by {
                    let j = choose|j: int| 0 <= j < old_nss.len() && old_nss[j]@ == nm;
                    assert(final(self).nss@[j]@ == nm);
                }
            }
        }
        CljNs { ns: ns_name.to_owned() }
    }
}

impl Default for NsRegister {
    /// The default registry is empty.
    fn default() -> (r: NsRegister)
        ensures
            r.nss@.len() == 0,
    {
        NsRegister::new()
    }
}

} // verus!
