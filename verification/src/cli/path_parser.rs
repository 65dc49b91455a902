//! Output path templates.
//!
//! A template may hold `${filepath}` (the directory of the current file),
//! `${filename}` (its name without extension), `${operation_name}` and
//! `${operation_type}` (`query`, `mutation` or `subscription`). Each is
//! replaced wherever it occurs, in that order.
use vstd::prelude::*;

use crate::paths::{
    file_stem_of, or_empty, parent_of, path_file_stem, path_parent, portable_path, text_or_empty,
};
use crate::text::{chars_of, push_char, push_str, to_owned_string};

verus! {

/// The kind of a GraphQL operation.
#[derive(Debug, Clone, Copy, PartialEq, Eq, Structural)]
pub enum OperationType {
    Query,
    Mutation,
    Subscription,
}

/// The lowercase name of an operation type.
pub open spec fn operation_type_text(t: OperationType) -> Seq<char> {
    match t {
        OperationType::Query => "query"@,
        OperationType::Mutation => "mutation"@,
        OperationType::Subscription => "subscription"@,
    }
}

pub fn operation_type_name(t: OperationType) -> (r: &'static str)
    ensures
        r@ == operation_type_text(t),
{
    match t {
        OperationType::Query => "query",
        OperationType::Mutation => "mutation",
        OperationType::Subscription => "subscription",
    }
}

/// Whether `pat` occurs in `s` at position `i`.
pub open spec fn occurs_at(s: Seq<char>, pat: Seq<char>, i: int) -> bool {
    0 <= i && i + pat.len() <= s.len() && s.subrange(i, i + pat.len()) == pat
}

/// `s` from position `i` on, with every occurrence of `pat` replaced by
/// `rep`, scanning left to right without overlaps (`str::replace`).
pub open spec fn replace_from(s: Seq<char>, pat: Seq<char>, rep: Seq<char>, i: int) -> Seq<char>
    recommends
        pat.len() > 0,
    decreases s.len() - i,
{
    if i < 0 || i >= s.len() {
        Seq::empty()
    } else if pat.len() > 0 && occurs_at(s, pat, i) {
        rep + replace_from(s, pat, rep, i + pat.len())
    } else {
        seq![s[i]] + replace_from(s, pat, rep, i + 1)
    }
}

/// `s` with every occurrence of `pat` replaced by `rep`.
pub open spec fn replace_all_spec(s: Seq<char>, pat: Seq<char>, rep: Seq<char>) -> Seq<char> {
    replace_from(s, pat, rep, 0)
}

/// Whether `pat` occurs in `cs` at position `i`.
fn occurs_at_exec(cs: &Vec<char>, pat: &Vec<char>, i: usize) -> (r: bool)
    requires
        i <= cs@.len(),
    ensures
        r == occurs_at(cs@, pat@, i as int),
{
    let n = cs.len();
    if pat.len() > n - i {
        return false;
    }
    let mut k: usize = 0;
    while k < pat.len()
        invariant
            n == cs@.len(),
            i + pat@.len() <= cs@.len(),
            k <= pat@.len(),
            forall|j: int| 0 <= j < k ==> cs@[i + j] == pat@[j],
        decreases pat@.len() - k,
    {
        if cs[i + k] != pat[k] {
            proof {
                assert(cs@.subrange(i as int, i + pat@.len())[k as int] != pat@[k as int]);
            }
            return false;
        }
        k = k + 1;
    }
    proof {
        assert(cs@.subrange(i as int, i + pat@.len()) =~= pat@);
    }
    true
}

/// Every occurrence of `pat` in `s` replaced by `rep` (`str::replace`).
pub fn replace_all(s: &str, pat: &str, rep: &str) -> (r: String)
    requires
        pat@.len() > 0,
    ensures
        r@ == replace_all_spec(s@, pat@, rep@),
{
    let cs = chars_of(s);
    let ps = chars_of(pat);
    let n = cs.len();
    let mut out = String::new();
    let mut i: usize = 0;
    while i < n
        invariant
            n == cs@.len(),
            cs@ == s@,
            ps@ == pat@,
            pat@.len() > 0,
            i <= n,
            out@ + replace_from(s@, pat@, rep@, i as int) == replace_all_spec(s@, pat@, rep@),
        decreases n - i,
    {
        let ghost before = out@;
        if occurs_at_exec(&cs, &ps, i) {
            push_str(&mut out, rep);
            proof {
                assert(out@ + replace_from(s@, pat@, rep@, i + pat@.len()) =~= before + replace_from(
                    s@,
                    pat@,
                    rep@,
                    i as int,
                ));
            }
            i = i + ps.len();
        } else {
            push_char(&mut out, cs[i]);
            proof {
                assert(out@ + replace_from(s@, pat@, rep@, i + 1) =~= before + replace_from(
                    s@,
                    pat@,
                    rep@,
                    i as int,
                ));
            }
            i = i + 1;
        }
    }
    proof {
        assert(replace_from(s@, pat@, rep@, i as int) =~= Seq::<char>::empty());
        assert(out@ =~= replace_all_spec(s@, pat@, rep@));
    }
    out
}

/// The expansion of a template.
pub open spec fn expansion(
    input: Seq<char>,
    filepath: Seq<char>,
    filename: Seq<char>,
    operation_name: Seq<char>,
    operation_type: OperationType,
) -> Seq<char> {
    replace_all_spec(
        replace_all_spec(
            replace_all_spec(replace_all_spec(input, "${filepath}"@, filepath), "${filename}"@, filename),
            "${operation_name}"@,
            operation_name,
        ),
        "${operation_type}"@,
        operation_type_text(operation_type),
    )
}

/// Expands a template, given the directory and the stem of the current file.
pub fn expand_path_parts(
    input: &str,
    filepath: &str,
    filename: &str,
    operation_name: &str,
    operation_type: OperationType,
) -> (r: String)
    ensures
        r@ == expansion(input@, filepath@, filename@, operation_name@, operation_type),
{
    proof {
        reveal_strlit("${filepath}");
        reveal_strlit("${filename}");
        reveal_strlit("${operation_name}");
        reveal_strlit("${operation_type}");
    }
    let a = replace_all(input, "${filepath}", filepath);
    let b = replace_all(a.as_str(), "${filename}", filename);
    let c = replace_all(b.as_str(), "${operation_name}", operation_name);
    replace_all(c.as_str(), "${operation_type}", operation_type_name(operation_type))
}

/// Expands a template for an operation found in the file at `current_path`:
/// `${filepath}` is its directory and `${filename}` its name without
/// extension (each empty when there is none).
pub fn expand_path(
    input_path: &str,
    current_path: &str,
    operation_name: &str,
    operation_type: OperationType,
) -> (r: String)
    ensures
        portable_path(current_path@) ==> r@ == expansion(
            input_path@,
            or_empty(parent_of(current_path@)),
            or_empty(file_stem_of(current_path@)),
            operation_name@,
            operation_type,
        ),
        !input_path@.contains('$') ==> r@ == input_path@,
{
    let filepath = text_or_empty(path_parent(current_path));
    let filename = text_or_empty(path_file_stem(current_path));
    let r = expand_path_parts(
        input_path,
        filepath.as_str(),
        filename.as_str(),
        operation_name,
        operation_type,
    );
    proof {
        reveal_strlit("${filepath}");
        reveal_strlit("${filename}");
        reveal_strlit("${operation_name}");
        reveal_strlit("${operation_type}");
        if !input_path@.contains('$') {
            assert(input_path@.subrange(0, input_path@.len() as int) =~= input_path@);
            lemma_replace_absent(input_path@, "${filepath}"@, filepath@, 0);
            lemma_replace_absent(input_path@, "${filename}"@, filename@, 0);
            lemma_replace_absent(input_path@, "${operation_name}"@, operation_name@, 0);
            lemma_replace_absent(input_path@, "${operation_type}"@, operation_type_text(operation_type), 0);
        }
    }
    r
}

/// A pattern that starts with a character absent from `s` is never replaced.
pub proof fn lemma_replace_absent(s: Seq<char>, pat: Seq<char>, rep: Seq<char>, i: int)
    requires
        pat.len() > 0,
        !s.contains(pat[0]),
        0 <= i <= s.len(),
    ensures
        replace_from(s, pat, rep, i) == s.subrange(i, s.len() as int),
    decreases s.len() - i,
{
    if i < s.len() {
        if occurs_at(s, pat, i) {
            assert(s.subrange(i, i + pat.len())[0] == s[i]);
        }
        lemma_replace_absent(s, pat, rep, i + 1);
        assert(seq![s[i]] + s.subrange(i + 1, s.len() as int) =~= s.subrange(i, s.len() as int));
    }
}

} // verus!
