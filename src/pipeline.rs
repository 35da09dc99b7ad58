use vstd::prelude::*;
use crate::report::{errors_of, lemma_tally_concat, total_of, Outcome};

verus! {

/// The paths of every pattern, pattern after pattern.
pub open spec fn all_matches(per_pattern: Seq<Vec<String>>) -> Seq<String> {
    per_pattern.map_values(|v: Vec<String>| v@).flatten()
}

/// The number of paths matched, summed over the patterns: a path that two
/// patterns match counts twice.
pub open spec fn match_count(per_pattern: Seq<Seq<String>>) -> nat
    decreases per_pattern.len(),
{
    if per_pattern.len() == 0 {
        0
    } else {
        match_count(per_pattern.drop_last()) + per_pattern.last().len()
    }
}

/// The candidates that were found to be regular files, in their order.
pub open spec fn files_among(candidates: Seq<String>, is_file: Seq<bool>) -> Seq<String>
    decreases candidates.len(),
{
    if candidates.len() == 0 || is_file.len() == 0 {
        Seq::empty()
    } else {
        let rest = files_among(candidates.drop_last(), is_file.drop_last());
        if is_file.last() {
            rest.push(candidates.last())
        } else {
            rest
        }
    }
}

/// The outcome for one file: its size when the metadata read succeeded,
/// otherwise an error that carries the path and the cause.
pub open spec fn outcome_for(path: String, read: Result<u64, String>) -> Outcome {
    match read {
        Ok(size) => Outcome::Sized { path, size },
        Err(cause) => Outcome::Failed { path, cause },
    }
}

/// One outcome for each file, in the order of the files.
pub open spec fn outcomes_for(files: Seq<String>, reads: Seq<Result<u64, String>>) -> Seq<Outcome>
    recommends
        files.len() == reads.len(),
{
    Seq::new(files.len(), |i: int| outcome_for(files[i], reads[i]))
}

proof fn lemma_flatten_count(per_pattern: Seq<Seq<String>>)
    ensures
        per_pattern.flatten().len() == match_count(per_pattern),
    decreases per_pattern.len(),
{
    if per_pattern.len() > 0 {
        let rest = per_pattern.drop_last();
        assert(rest.push(per_pattern.last()) =~= per_pattern);
        rest.lemma_flatten_push(per_pattern.last());
        lemma_flatten_count(rest);
    }
}

/// Joins the paths that each pattern matched, keeping every occurrence: a
/// path matched by several patterns appears once per pattern.
pub fn combine_matches(per_pattern: &Vec<Vec<String>>) -> (r: Vec<String>)
    ensures
        r@ == all_matches(per_pattern@),
        r@.len() == match_count(per_pattern@.map_values(|v: Vec<String>| v@)),
{
    let mut r: Vec<String> = Vec::new();
    let mut i: usize = 0;
    while i < per_pattern.len()
        invariant
            i <= per_pattern@.len(),
            r@ == all_matches(per_pattern@.take(i as int)),
        decreases per_pattern@.len() - i,
    {
        let group = &per_pattern[i];
        let ghost before = r@;
        let mut j: usize = 0;
        while j < group.len()
            invariant
                j <= group@.len(),
                r@ == before + group@.take(j as int),
            decreases group@.len() - j,
        {
            r.push(group[j].clone());
            j = j + 1;
            assert(r@ =~= before + group@.take(j as int));
        }
        proof {
            let f = |v: Vec<String>| v@;
            let done = per_pattern@.take(i as int).map_values(f);
            assert(per_pattern@.take(i + 1).map_values(f) =~= done.push(group@));
            done.lemma_flatten_push(group@);
            assert(group@.take(j as int) =~= group@);
        }
        i = i + 1;
    }
    proof {
        assert(per_pattern@.take(i as int) =~= per_pattern@);
        lemma_flatten_count(per_pattern@.map_values(|v: Vec<String>| v@));
    }
    r
}

/// Keeps the candidates that are regular files, as `is_file` reports for
/// each candidate at the same position; the others are dropped silently.
pub fn select_files(candidates: &Vec<String>, is_file: &Vec<bool>) -> (r: Vec<String>)
    requires
        candidates@.len() == is_file@.len(),
    ensures
        r@ == files_among(candidates@, is_file@),
{
    let mut r: Vec<String> = Vec::new();
    let mut i: usize = 0;
    while i < candidates.len()
        invariant
            i <= candidates@.len(),
            candidates@.len() == is_file@.len(),
            r@ == files_among(candidates@.take(i as int), is_file@.take(i as int)),
        decreases candidates@.len() - i,
    {
        assert(candidates@.take(i + 1).drop_last() =~= candidates@.take(i as int));
        assert(is_file@.take(i + 1).drop_last() =~= is_file@.take(i as int));
        if is_file[i] {
            r.push(candidates[i].clone());
        }
        i = i + 1;
    }
    assert(candidates@.take(i as int) =~= candidates@);
    assert(is_file@.take(i as int) =~= is_file@);
    r
}

/// Pairs each file with the result of reading its metadata: exactly one
/// outcome per file, a size or an error, never both and never neither.
pub fn collect_outcomes(files: &Vec<String>, reads: Vec<Result<u64, String>>) -> (r: Vec<Outcome>)
    requires
        files@.len() == reads@.len(),
    ensures
        r@ == outcomes_for(files@, reads@),
{
    let mut r: Vec<Outcome> = Vec::new();
    let mut i: usize = 0;
    while i < files.len()
        invariant
            i <= files@.len(),
            files@.len() == reads@.len(),
            r@ =~= outcomes_for(files@.take(i as int), reads@.take(i as int)),
        decreases files@.len() - i,
    {
        let path = files[i].clone();
        let o = match &reads[i] {
            Ok(size) => Outcome::Sized { path, size: *size },
            Err(cause) => Outcome::Failed { path, cause: cause.clone() },
        };
        r.push(o);
        i = i + 1;
    }
    assert(files@.take(i as int) =~= files@);
    assert(reads@.take(i as int) =~= reads@);
    r
}

/// The number of metadata reads that failed.
pub open spec fn failed_reads(reads: Seq<Result<u64, String>>) -> nat
    decreases reads.len(),
{
    if reads.len() == 0 {
        0
    } else {
        failed_reads(reads.drop_last()) + if reads.last() is Err {
            1nat
        } else {
            0nat
        }
    }
}

proof fn lemma_errors_are_failed_reads(files: Seq<String>, reads: Seq<Result<u64, String>>)
    requires
        files.len() == reads.len(),
    ensures
        errors_of(outcomes_for(files, reads)) == failed_reads(reads),
        failed_reads(reads) <= reads.len(),
    decreases files.len(),
{
    if files.len() > 0 {
        assert(outcomes_for(files, reads).drop_last() =~= outcomes_for(
            files.drop_last(),
            reads.drop_last(),
        ));
        lemma_errors_are_failed_reads(files.drop_last(), reads.drop_last());
    }
}

/// Each regular file that a pattern matched is counted once for every pattern
/// that matched it, and ends up either among the files processed or among the
/// errors: the errors are the failed metadata reads, and the files processed
/// are the rest.
pub proof fn lemma_every_match_counted(
    per_pattern: Seq<Seq<String>>,
    reads: Seq<Result<u64, String>>,
)
    requires
        reads.len() == per_pattern.flatten().len(),
    ensures
        outcomes_for(per_pattern.flatten(), reads).len() == match_count(per_pattern),
        errors_of(outcomes_for(per_pattern.flatten(), reads)) == failed_reads(reads),
        failed_reads(reads) <= match_count(per_pattern),
{
    lemma_flatten_count(per_pattern);
    lemma_errors_are_failed_reads(per_pattern.flatten(), reads);
}

/// Matches are not merged across patterns: the outcomes of two groups of
/// files, taken together, are those of each group in turn, so the byte total
/// is the sum of the groups' totals even where a file occurs in both.
pub proof fn lemma_groups_add_up(
    a: Seq<String>,
    ra: Seq<Result<u64, String>>,
    b: Seq<String>,
    rb: Seq<Result<u64, String>>,
)
    requires
        a.len() == ra.len(),
        b.len() == rb.len(),
    ensures
        outcomes_for(a + b, ra + rb) == outcomes_for(a, ra) + outcomes_for(b, rb),
        total_of(outcomes_for(a + b, ra + rb)) == total_of(outcomes_for(a, ra)) + total_of(
            outcomes_for(b, rb),
        ),
        errors_of(outcomes_for(a + b, ra + rb)) == errors_of(outcomes_for(a, ra)) + errors_of(
            outcomes_for(b, rb),
        ),
{
    assert(outcomes_for(a + b, ra + rb) =~= outcomes_for(a, ra) + outcomes_for(b, rb));
    lemma_tally_concat(outcomes_for(a, ra), outcomes_for(b, rb));
}

} // verus!
