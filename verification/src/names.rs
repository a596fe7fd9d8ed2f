//! Naming: display formatting of runtime type signatures and the table
//! that maps method handles to resolved display names.
//!
//! The host runtime reports classes as signature strings (`Lpkg/Cls;`
//! for an object type, a leading `[` for an array type).  Reports show
//! them in display form: the object-type markers stripped and package
//! separators turned into dots.  Name resolution itself is a query
//! against the host and happens outside this library; resolved names
//! are handed in and kept in a `NameTable`.

use vstd::prelude::*;

use crate::stats::MethodId;
use crate::table::{lookup, upsert, unique_keys, lemma_upsert_found, lemma_upsert_absent,
    lemma_lookup_index, lemma_lookup_absent};

verus! {

/// Package separators replaced by the display convention.
pub open spec fn spec_dots(s: Seq<char>) -> Seq<char> {
    s.map_values(|c: char| if c == '/' { '.' } else { c })
}

/// Display form of a class signature: an object type `L...;` loses its
/// markers and gets dotted separators, an array type is tagged as such,
/// anything else is shown as it came.
pub open spec fn spec_format_class_signature(sig: Seq<char>) -> Seq<char> {
    if sig.len() >= 2 && sig[0] == 'L' && sig[sig.len() - 1] == ';' {
        spec_dots(sig.subrange(1, sig.len() - 1))
    } else if sig.len() >= 1 && sig[0] == '[' {
        "Array: "@ + sig
    } else {
        sig
    }
}

/// Display form of a declaring class: as above, but an array signature
/// is shown unchanged.
pub open spec fn spec_format_declaring_class(sig: Seq<char>) -> Seq<char> {
    if sig.len() >= 2 && sig[0] == 'L' && sig[sig.len() - 1] == ';' {
        spec_dots(sig.subrange(1, sig.len() - 1))
    } else {
        sig
    }
}

/// Marker used where a class name could not be resolved.
pub open spec fn spec_unknown_class() -> Seq<char> {
    "<unknown>"@
}

/// `Class.method` display name.
pub open spec fn spec_method_display_name(class_name: Seq<char>, method_name: Seq<char>) -> Seq<
    char,
> {
    class_name + "."@ + method_name
}

/// Character-exact string equality.
pub fn str_eq(a: &str, b: &str) -> (r: bool)
    ensures
        r == (a@ == b@),
{
    let la = a.unicode_len();
    let lb = b.unicode_len();
    if la != lb {
        return false;
    }
    let mut i: usize = 0;
    while i < la
        invariant
            i <= la,
            la == a@.len(),
            la == b@.len(),
            forall|j: int| 0 <= j < i ==> a@[j] == b@[j],
        decreases la - i,
    {
        if a.get_char(i) != b.get_char(i) {
            return false;
        }
        i += 1;
    }
    proof {
        assert(a@ =~= b@);
    }
    true
}

/// Copy of `s` with `/` replaced by `.`.
fn replace_separators(s: &str) -> (r: String)
    ensures
        r@ == spec_dots(s@),
{
    let n = s.unicode_len();
    let mut out = String::new();
    let mut i: usize = 0;
    while i < n
        invariant
            i <= n,
            n == s@.len(),
            out@ == spec_dots(s@.subrange(0, i as int)),
        decreases n - i,
    {
        let c = s.get_char(i);
        if c == '/' {
            out.append(".");
            proof {
                reveal_strlit(".");
            }
        } else {
            let piece = s.substring_char(i, i + 1);
            out.append(piece);
        }
        proof {
            assert(out@ =~= spec_dots(s@.subrange(0, i + 1 as int)));
        }
        i += 1;
    }
    proof {
        assert(s@.subrange(0, n as int) =~= s@);
    }
    out
}

/// Display form of an allocated object's class signature.
pub fn format_class_signature(sig: &str) -> (r: String)
    ensures
        r@ == spec_format_class_signature(sig@),
{
    let n = s_len(sig);
    if n >= 2 && sig.get_char(0) == 'L' && sig.get_char(n - 1) == ';' {
        let inner = sig.substring_char(1, n - 1);
        replace_separators(inner)
    } else if n >= 1 && sig.get_char(0) == '[' {
        let mut out = String::from_str("Array: ");
        out.append(sig);
        out
    } else {
        String::from_str(sig)
    }
}

/// Display form of a method's declaring class signature.
pub fn format_declaring_class(sig: &str) -> (r: String)
    ensures
        r@ == spec_format_declaring_class(sig@),
{
    let n = s_len(sig);
    if n >= 2 && sig.get_char(0) == 'L' && sig.get_char(n - 1) == ';' {
        let inner = sig.substring_char(1, n - 1);
        replace_separators(inner)
    } else {
        String::from_str(sig)
    }
}

/// Character count of a string slice.
fn s_len(s: &str) -> (n: usize)
    ensures
        n == s@.len(),
{
    s.unicode_len()
}

/// `Class.method` display name, or nothing where either part is only a
/// resolution-failure marker.
pub fn get_method_name_safe(class_name: &str, method_name: &str) -> (r: Option<String>)
    ensures
        (class_name@ != "<unknown-class>"@ && method_name@ != "<unknown>"@) ==> (r matches Some(s)
            && s@ == spec_method_display_name(class_name@, method_name@)),
        (class_name@ == "<unknown-class>"@ || method_name@ == "<unknown>"@) ==> r is None,
{
    if !str_eq(class_name, "<unknown-class>") && !str_eq(method_name, "<unknown>") {
        let mut out = String::from_str(class_name);
        out.append(".");
        out.append(method_name);
        Some(out)
    } else {
        None
    }
}

/// Resolved display names of methods, keyed by handle.  Filled from the
/// host runtime's metadata at report time; lookups feed the report and
/// flamegraph builders.
pub struct NameTable {
    pub entries: Vec<(MethodId, String)>,
}

impl View for NameTable {
    type V = Seq<(MethodId, Seq<char>)>;

    open spec fn view(&self) -> Seq<(MethodId, Seq<char>)> {
        self.entries@.map_values(|p: (MethodId, String)| (p.0, p.1@))
    }
}

impl NameTable {
    pub open spec fn inv(&self) -> bool {
        unique_keys(self@)
    }

    pub fn new() -> (r: NameTable)
        ensures
            r@ == Seq::<(MethodId, Seq<char>)>::empty(),
            r.inv(),
    {
        let r = NameTable { entries: Vec::new() };
        proof {
            assert(r@ =~= Seq::<(MethodId, Seq<char>)>::empty());
        }
        r
    }

    /// Index of the record for `m`, scanning from the front.
    fn find_entry(entries: &Vec<(MethodId, String)>, m: MethodId) -> (r: Option<usize>)
        ensures
            r matches Some(i) ==> i < entries@.len() && entries@[i as int].0 == m && (forall|
                j: int,
            |
                0 <= j < i ==> (#[trigger] entries@[j]).0 != m),
            r is None ==> forall|j: int| 0 <= j < entries@.len() ==> (#[trigger] entries@[j]).0
                != m,
    {
        let n = entries.len();
        let mut i: usize = 0;
        while i < n
            invariant
                i <= n,
                n == entries@.len(),
                forall|j: int| 0 <= j < i ==> (#[trigger] entries@[j]).0 != m,
            decreases n - i,
        {
            if entries[i].0 == m {
                return Some(i);
            }
            i += 1;
        }
        None
    }

    /// Record the resolved name of `m`, replacing an earlier record.
    pub fn insert(&mut self, m: MethodId, name: String)
        requires
            old(self).inv(),
        ensures
            final(self).inv(),
            final(self)@ == upsert(old(self)@, m, name@, |v: Seq<char>| name@),
    {
        let ghost old_view = self@;
        let ghost name_view = name@;
        match Self::find_entry(&self.entries, m) {
            Some(i) => {
                self.entries[i].1 = name;
                proof {
                    assert forall|j: int| 0 <= j < i implies (#[trigger] old_view[j]).0 != m by {
                        assert(old_view[j].0 == old(self).entries@[j].0);
                    }
                    assert(old_view[i as int].0 == m);
                    lemma_upsert_found(old_view, m, name_view, |v: Seq<char>| name_view, i as int);
                    assert(self@ =~= upsert(old_view, m, name_view, |v: Seq<char>| name_view));
                    assert forall|a: int, b: int|
                        0 <= a < b < self@.len() implies (#[trigger] self@[a]).0 != (
                    #[trigger] self@[b]).0 by {
                        assert(self@[a].0 == old_view[a].0);
                        assert(self@[b].0 == old_view[b].0);
                    }
                }
            },
            None => {
                self.entries.push((m, name));
                proof {
                    assert forall|j: int| 0 <= j < old_view.len() implies (#[trigger] old_view[j]).0
                        != m by {
                        assert(old_view[j].0 == old(self).entries@[j].0);
                    }
                    lemma_upsert_absent(old_view, m, name_view, |v: Seq<char>| name_view);
                    assert(self@ =~= upsert(old_view, m, name_view, |v: Seq<char>| name_view));
                    assert forall|a: int, b: int|
                        0 <= a < b < self@.len() implies (#[trigger] self@[a]).0 != (
                    #[trigger] self@[b]).0 by {
                        if b < old_view.len() {
                            assert(self@[a].0 == old_view[a].0);
                            assert(self@[b].0 == old_view[b].0);
                        } else {
                            assert(self@[a].0 == old_view[a].0);
                        }
                    }
                }
            },
        }
    }

    /// The recorded name of `m`, if one was recorded.
    pub fn get(&self, m: MethodId) -> (r: Option<String>)
        requires
            self.inv(),
        ensures
            r is Some <==> lookup(self@, m) is Some,
            r matches Some(s) ==> lookup(self@, m) == Some(s@),
    {
        match Self::find_entry(&self.entries, m) {
            Some(i) => {
                proof {
                    assert(self@[i as int].0 == self.entries@[i as int].0);
                    lemma_lookup_index(self@, i as int);
                }
                Some(self.entries[i].1.clone())
            },
            None => {
                proof {
                    assert forall|j: int| 0 <= j < self@.len() implies (#[trigger] self@[j]).0
                        != m by {
                        assert(self@[j].0 == self.entries@[j].0);
                    }
                    lemma_lookup_absent(self@, m);
                }
                None
            },
        }
    }
}

} // verus!
