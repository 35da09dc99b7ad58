use vstd::prelude::*;

verus! {

/// Whether `glob::glob` accepts `p` as a pattern.
pub uninterp spec fn glob_accepts(p: Seq<char>) -> bool;

/// Whether `t` holds three `*` in a row.
pub open spec fn has_triple_star(t: Seq<char>) -> bool {
    exists|i: int| 0 <= i && i + 3 <= t.len() && #[trigger] t.subrange(i, i + 3) == seq!['*', '*', '*']
}

/// Relies on glob::glob to decide whether a pattern is well formed. It reads
/// no directory until the returned iterator is advanced. Its syntax errors
/// arise only at `*` runs and at `[` classes, so a pattern free of both is
/// always accepted; outside a class, a run of three or more `*` is refused.
#[verifier::external_body]
fn glob_pattern_ok(p: &str) -> (r: bool)
    ensures
        r == glob_accepts(p@),
        (forall|i: int| 0 <= i < p@.len() ==> p@[i] != '*' && p@[i] != '[') ==> r,
        has_triple_star(p@) && (forall|i: int| 0 <= i < p@.len() ==> p@[i] != '[') ==> !r,
{
    glob::glob(p).is_ok()
}

/// A pattern that is not valid glob syntax, with its position among the
/// patterns given.
pub struct PatternSyntaxError {
    pub index: usize,
    pub pattern: String,
}

/// Checks every pattern before any is expanded. The first one that is not
/// valid glob syntax is reported, and the run is then to stop.
pub fn check_patterns(patterns: &Vec<String>) -> (r: Result<(), PatternSyntaxError>)
    ensures
        r is Ok <==> forall|i: int| 0 <= i < patterns@.len() ==> glob_accepts(patterns@[i]@),
        r matches Err(e) ==> {
            &&& e.index < patterns@.len()
            &&& e.pattern == patterns@[e.index as int]
            &&& !glob_accepts(e.pattern@)
            &&& forall|j: int| 0 <= j < e.index ==> glob_accepts(patterns@[j]@)
        },
{
    let mut i: usize = 0;
    while i < patterns.len()
        invariant
            i <= patterns@.len(),
            forall|j: int| 0 <= j < i ==> glob_accepts(patterns@[j]@),
        decreases patterns@.len() - i,
    {
        if !glob_pattern_ok(patterns[i].as_str()) {
            return Err(PatternSyntaxError { index: i, pattern: patterns[i].clone() });
        }
        i = i + 1;
    }
    Ok(())
}

} // verus!
