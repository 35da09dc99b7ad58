use vstd::prelude::*;
use vstd::seq_lib::{to_multiset_build, to_multiset_contains, to_multiset_len, to_multiset_remove};
use crate::size::{decimal, decimal_string, format_size, render};

verus! {

/// What became of one file whose metadata was read: its size, or the reason
/// the read failed.
pub enum Outcome {
    Sized { path: String, size: u64 },
    Failed { path: String, cause: String },
}

/// The aggregate of all outcomes: the byte total, the number of files sized,
/// and the number of files whose metadata could not be read.
pub struct Summary {
    pub total: u64,
    pub processed: usize,
    pub errors: usize,
}

/// The byte total would not fit in 64 bits.
pub struct TotalOverflow;

/// The bytes that an outcome adds to the total.
pub open spec fn size_of(o: Outcome) -> nat {
    match o {
        Outcome::Sized { size, .. } => size as nat,
        Outcome::Failed { .. } => 0,
    }
}

/// The errors that an outcome adds to the count.
pub open spec fn error_of(o: Outcome) -> nat {
    match o {
        Outcome::Sized { .. } => 0,
        Outcome::Failed { .. } => 1,
    }
}

/// The sum of the sizes of all successful outcomes.
pub open spec fn total_of(s: Seq<Outcome>) -> nat
    decreases s.len(),
{
    if s.len() == 0 {
        0
    } else {
        total_of(s.drop_last()) + size_of(s.last())
    }
}

/// The number of failed outcomes.
pub open spec fn errors_of(s: Seq<Outcome>) -> nat
    decreases s.len(),
{
    if s.len() == 0 {
        0
    } else {
        errors_of(s.drop_last()) + error_of(s.last())
    }
}

/// Folds the outcomes into a summary; fails only when the byte total
/// exceeds `u64::MAX`.
pub fn summarize(outcomes: &Vec<Outcome>) -> (r: Result<Summary, TotalOverflow>)
    ensures
        r is Ok <==> total_of(outcomes@) <= u64::MAX,
        r matches Ok(s) ==> {
            &&& s.total == total_of(outcomes@)
            &&& s.errors == errors_of(outcomes@)
            &&& s.processed + s.errors == outcomes@.len()
        },
{
    let mut total: u64 = 0;
    let mut errors: usize = 0;
    let mut i: usize = 0;
    while i < outcomes.len()
        invariant
            i <= outcomes@.len(),
            total == total_of(outcomes@.take(i as int)),
            errors == errors_of(outcomes@.take(i as int)),
            errors <= i,
        decreases outcomes@.len() - i,
    {
        let ghost s = outcomes@.take(i + 1);
        assert(s.drop_last() =~= outcomes@.take(i as int));
        match &outcomes[i] {
            Outcome::Sized { size, .. } => {
                if *size > u64::MAX - total {
                    proof {
                        lemma_total_grows(outcomes@, i as int + 1);
                    }
                    return Err(TotalOverflow);
                }
                total = total + *size;
            },
            Outcome::Failed { .. } => {
                errors = errors + 1;
            },
        }
        i = i + 1;
    }
    assert(outcomes@.take(i as int) =~= outcomes@);
    Ok(Summary { total, processed: i - errors, errors })
}

/// The total over a prefix never exceeds the total over the whole.
proof fn lemma_total_grows(s: Seq<Outcome>, n: int)
    requires
        0 <= n <= s.len(),
    ensures
        total_of(s.take(n)) <= total_of(s),
    decreases s.len() - n,
{
    if n < s.len() {
        assert(s.take(n + 1).drop_last() =~= s.take(n));
        lemma_total_grows(s, n + 1);
    } else {
        assert(s.take(n) =~= s);
    }
}

/// Totals and error counts add up over concatenation.
pub proof fn lemma_tally_concat(a: Seq<Outcome>, b: Seq<Outcome>)
    ensures
        total_of(a + b) == total_of(a) + total_of(b),
        errors_of(a + b) == errors_of(a) + errors_of(b),
    decreases b.len(),
{
    if b.len() == 0 {
        assert(a + b =~= a);
    } else {
        assert((a + b).drop_last() =~= a + b.drop_last());
        lemma_tally_concat(a, b.drop_last());
    }
}

proof fn lemma_tally_remove(s: Seq<Outcome>, i: int)
    requires
        0 <= i < s.len(),
    ensures
        total_of(s) == total_of(s.remove(i)) + size_of(s[i]),
        errors_of(s) == errors_of(s.remove(i)) + error_of(s[i]),
{
    let pre = s.take(i);
    let post = s.skip(i + 1);
    let one = seq![s[i]];
    assert(s =~= pre + one + post);
    assert(s.remove(i) =~= pre + post);
    lemma_tally_concat(pre + one, post);
    lemma_tally_concat(pre, one);
    lemma_tally_concat(pre, post);
    assert(one.drop_last() =~= Seq::<Outcome>::empty());
    assert(total_of(one) == total_of(one.drop_last()) + size_of(s[i]));
    assert(errors_of(one) == errors_of(one.drop_last()) + error_of(s[i]));
}

/// The summary does not depend on the order in which the outcomes were
/// collected: any rearrangement of the same outcomes gives the same total,
/// the same error count and the same number of files.
pub proof fn lemma_order_independent(a: Seq<Outcome>, b: Seq<Outcome>)
    requires
        a.to_multiset() == b.to_multiset(),
    ensures
        total_of(a) == total_of(b),
        errors_of(a) == errors_of(b),
        a.len() == b.len(),
    decreases a.len(),
{
    to_multiset_len(a);
    to_multiset_len(b);
    if a.len() > 0 {
        let x = a.last();
        let rest = a.drop_last();
        assert(rest.push(x) =~= a);
        to_multiset_build(rest, x);
        to_multiset_contains(b, x);
        assert(b.to_multiset().count(x) > 0);
        let i = choose|i: int| 0 <= i < b.len() && b[i] == x;
        to_multiset_remove(b, i);
        assert(b.remove(i).to_multiset() =~= rest.to_multiset());
        lemma_order_independent(rest, b.remove(i));
        lemma_tally_remove(b, i);
    }
}

/// The line shown for one sized file: its path, then its scaled size.
pub open spec fn file_text(path: Seq<char>, size: nat) -> Seq<char> {
    path + ": "@ + render(size)
}

/// The lines of the final summary: a heading, the files processed, the
/// errors (only when there are any), and the scaled byte total.
pub open spec fn summary_text(s: Summary) -> Seq<Seq<char>> {
    let head = seq!["--- Summary ---"@, "Files processed: "@ + decimal(s.processed as nat)];
    let errs = if s.errors > 0 {
        seq!["Errors: "@ + decimal(s.errors as nat)]
    } else {
        Seq::empty()
    };
    head + errs + seq!["Total size: "@ + render(s.total as nat)]
}

/// The lines shown as text.
pub open spec fn texts(lines: Seq<String>) -> Seq<Seq<char>> {
    lines.map_values(|l: String| l@)
}

/// The notice shown when no pattern matched a regular file.
pub open spec fn no_files_text() -> Seq<char> {
    "No files found matching the patterns"@
}

/// The line shown for one successfully sized file.
pub fn file_line(path: &String, size: u64) -> (r: String)
    ensures
        r@ == file_text(path@, size as nat),
{
    let mut line = path.clone();
    line.append(": ");
    line.append(format_size(size).as_str());
    line
}

/// The line announcing how many files are about to be sized.
pub fn found_line(count: usize) -> (r: String)
    ensures
        r@ == "Found "@ + decimal(count as nat) + " files, calculating sizes..."@,
{
    let mut line = String::from_str("Found ");
    line.append(decimal_string(count as u64).as_str());
    line.append(" files, calculating sizes...");
    line
}

/// The notice shown instead of a summary when no regular file was found.
pub fn no_files_notice() -> (r: String)
    ensures
        r@ == no_files_text(),
{
    String::from_str("No files found matching the patterns")
}

/// The lines of the final summary block.
pub fn summary_lines(s: &Summary) -> (r: Vec<String>)
    ensures
        texts(r@) == summary_text(*s),
{
    let mut r: Vec<String> = Vec::new();
    r.push(String::from_str("--- Summary ---"));
    let mut processed = String::from_str("Files processed: ");
    processed.append(decimal_string(s.processed as u64).as_str());
    r.push(processed);
    if s.errors > 0 {
        let mut errors = String::from_str("Errors: ");
        errors.append(decimal_string(s.errors as u64).as_str());
        r.push(errors);
    }
    let mut total = String::from_str("Total size: ");
    total.append(format_size(s.total).as_str());
    r.push(total);
    assert(texts(r@) =~= summary_text(*s));
    r
}

} // verus!
