use vstd::prelude::*;

verus! {

broadcast use vstd::string::group_string_axioms;

/// Whether `name` names a hidden entry: it begins with a period.
pub open spec fn is_hidden_name(name: Seq<char>) -> bool {
    name.len() > 0 && name[0] == '.'
}

/// Whether `name` equals one of the names of the ignore list.
pub open spec fn is_ignored_name(name: Seq<char>, ignore: Seq<String>) -> bool {
    exists|i: int| 0 <= i < ignore.len() && #[trigger] ignore[i]@ == name
}

/// The filtering policy: an entry is skipped when it is hidden or ignored.
pub open spec fn skipped(name: Seq<char>, ignore: Seq<String>) -> bool {
    is_hidden_name(name) || is_ignored_name(name, ignore)
}

/// Whether `name` begins with a period.
pub fn is_hidden(name: &str) -> (r: bool)
    ensures
        r == is_hidden_name(name@),
{
    let mut chars = name.chars();
    match chars.next() {
        Some(c) => c == '.',
        None => false,
    }
}

/// Whether `name` is exactly one of the names in `ignore`.
pub fn should_ignore(name: &String, ignore: &[String]) -> (r: bool)
    ensures
        r == is_ignored_name(name@, ignore@),
{
    let mut i: usize = 0;
    while i < ignore.len()
        invariant
            0 <= i <= ignore@.len(),
            forall|j: int| 0 <= j < i ==> ignore@[j]@ != name@,
        decreases ignore@.len() - i,
    {
        if ignore[i] == *name {
            return true;
        }
        i += 1;
    }
    false
}

/// Whether the traversal skips an entry called `name`; the answer depends on
/// the name and the ignore list alone.
pub fn should_skip(name: &String, ignore: &[String]) -> (r: bool)
    ensures
        r == skipped(name@, ignore@),
{
    is_hidden(name.as_str()) || should_ignore(name, ignore)
}

/// The skip decision depends on which names the ignore list holds, not on
/// their order or repetition: two lists with the same names decide alike.
pub proof fn lemma_skip_same_names(name: Seq<char>, a: Seq<String>, b: Seq<String>)
    requires
        forall|s: String| a.contains(s) <==> b.contains(s),
    ensures
        skipped(name, a) == skipped(name, b),
{
    if is_ignored_name(name, a) {
        let i = choose|i: int| 0 <= i < a.len() && #[trigger] a[i]@ == name;
        assert(a.contains(a[i]));
        let j = choose|j: int| 0 <= j < b.len() && b[j] == a[i];
        assert(b[j]@ == name);
    }
    if is_ignored_name(name, b) {
        let i = choose|i: int| 0 <= i < b.len() && #[trigger] b[i]@ == name;
        assert(b.contains(b[i]));
        let j = choose|j: int| 0 <= j < a.len() && a[j] == b[i];
        assert(a[j]@ == name);
    }
}

} // verus!
