//! Functions that pass strings around: by value, by reference, and by
//! mutable reference, each with a contract over the string views.

use vstd::prelude::*;
use vstd::string::StrSliceExecFns;
use vstd::string::StringExecFns;

use crate::game::string_views;

verus! {

broadcast use vstd::slice::axiom_spec_len;

/// Returns ownership of the string it was given, unchanged.
pub fn takes_and_gives_back(some_string: String) -> (r: String)
    ensures
        r@ == some_string@,
{
    some_string
}

/// The length of a string in bytes: what its characters take up in UTF-8.
pub open spec fn byte_length(s: Seq<char>) -> nat {
    vstd::utf8::encode_utf8(s).len()
}

/// Returns the string together with its length in bytes.
pub fn calculate_length(s: String) -> (r: (String, usize))
    ensures
        r.0@ == s@,
        r.1 == byte_length(s@),
{
    let length = s.as_str().as_bytes().len();
    (s, length)
}

/// The length of a borrowed string, in bytes.
pub fn calculate_length_ref(s: &String) -> (r: usize)
    ensures
        r == byte_length(s@),
{
    s.as_str().as_bytes().len()
}

/// Appends ", world" to the borrowed string.
pub fn change(s: &mut String)
    ensures
        final(s)@ == old(s)@ + ", world"@,
{
    s.append(", world");
}

/// Returns a freshly owned greeting.
pub fn return_string() -> (r: String)
    ensures
        r@ == "hello"@,
{
    "hello".to_owned()
}

/// The words of `parts` joined by single blanks: empty for no words, the one
/// word alone, and otherwise each further word after one blank.
pub open spec fn joined_with_blanks(parts: Seq<Seq<char>>) -> Seq<char>
    decreases parts.len(),
{
    if parts.len() == 0 {
        Seq::empty()
    } else if parts.len() == 1 {
        parts[0]
    } else {
        joined_with_blanks(parts.drop_last()) + seq![' '] + parts.last()
    }
}

/// Joins the given words with single blanks, as `joined_with_blanks` says.
pub fn join_words(parts: &Vec<String>) -> (r: String)
    ensures
        r@ == joined_with_blanks(string_views(parts@)),
{
    let ghost all = string_views(parts@);
    let mut r = String::new();
    let mut i: usize = 0;
    while i < parts.len()
        invariant
            i <= parts.len(),
            all == string_views(parts@),
            all.len() == parts.len(),
            r@ == joined_with_blanks(all.take(i as int)),
        decreases parts.len() - i,
    {
        if i > 0 {
            r.append(" ");
            proof {
                reveal_strlit(" ");
                assert(" "@ =~= seq![' ']);
            }
        }
        r.append(parts[i].as_str());
        proof {
            let p = all.take(i + 1);
            assert(p.last() == all[i as int]);
            if i == 0 {
                assert(p.len() == 1);
                assert(p[0] == all[0]);
                assert(Seq::<char>::empty() + all[0] =~= all[0]);
            } else {
                assert(p.drop_last() =~= all.take(i as int));
            }
        }
        i = i + 1;
    }
    proof {
        assert(all.take(parts.len() as int) =~= all);
    }
    r
}

/// Appends the title "Esq." to the borrowed name and returns the full name,
/// words joined by blanks.
pub fn stringify_name_with_title(n: &mut Vec<String>) -> (full: String)
    ensures
        string_views(final(n)@) == string_views(old(n)@).push("Esq."@),
        full@ == joined_with_blanks(string_views(final(n)@)),
{
    n.push("Esq.".to_owned());
    proof {
        assert(string_views(n@) =~= string_views(old(n)@).push("Esq."@));
    }
    join_words(n)
}

/// Takes the name over, appends the title "Esq.", and returns the full name,
/// words joined by blanks.
pub fn stringify_name_with_title_v2(n: Vec<String>) -> (full: String)
    ensures
        full@ == joined_with_blanks(string_views(n@).push("Esq."@)),
{
    let mut name = n;
    let full = stringify_name_with_title(&mut name);
    full
}

/// Leaves the borrowed name as it is: a clone carries the appended title
/// "Esq.", and the full name is returned, words joined by blanks.
pub fn stringify_name_with_title_v3(n: &Vec<String>) -> (full: String)
    ensures
        full@ == joined_with_blanks(string_views(n@).push("Esq."@)),
{
    let mut name_clone = n.clone();
    proof {
        assert(string_views(name_clone@) =~= string_views(n@));
    }
    let full = stringify_name_with_title(&mut name_clone);
    full
}

} // verus!
