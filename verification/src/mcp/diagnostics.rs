//! The sorting of OpenSCAD's diagnostic output that `validate_scad`
//! performs.
use vstd::prelude::*;
use vstd::string::*;
use crate::render::params::{lowercase_text, to_lowercase};
use crate::text::{chars_of, contains_exec, contains_seq, lines, lines_of};

verus! {

broadcast use vstd::string::group_string_axioms;

/// The line reports an error: its lowercase form contains `error`.
pub open spec fn reports_error(line: Seq<char>) -> bool {
    contains_seq(lowercase_text(line), seq!['e', 'r', 'r', 'o', 'r'])
}

/// The line reports a warning: its lowercase form contains `warning`.
pub open spec fn reports_warning(line: Seq<char>) -> bool {
    contains_seq(lowercase_text(line), seq!['w', 'a', 'r', 'n', 'i', 'n', 'g'])
}

/// The lines of `ls` that report errors, and those that report warnings
/// and no error, in order.
pub open spec fn diagnostics_of_lines(ls: Seq<Seq<char>>) -> (Seq<Seq<char>>, Seq<Seq<char>>)
    decreases ls.len(),
{
    if ls.len() == 0 {
        (seq![], seq![])
    } else {
        let (e, w) = diagnostics_of_lines(ls.drop_last());
        let l = ls.last();
        if reports_error(l) {
            (e.push(l), w)
        } else if reports_warning(l) {
            (e, w.push(l))
        } else {
            (e, w)
        }
    }
}

/// Sorts the lines of OpenSCAD's diagnostic output into errors and
/// warnings, ignoring case.
pub fn classify_diagnostics(stderr: &str) -> (r: (Vec<String>, Vec<String>))
    ensures
        (r.0.deep_view(), r.1.deep_view()) == diagnostics_of_lines(lines(stderr@)),
{
    let error_word = vec!['e', 'r', 'r', 'o', 'r'];
    let warning_word = vec!['w', 'a', 'r', 'n', 'i', 'n', 'g'];
    assert(error_word@ =~= seq!['e', 'r', 'r', 'o', 'r']);
    assert(warning_word@ =~= seq!['w', 'a', 'r', 'n', 'i', 'n', 'g']);
    let ls = lines_of(stderr);
    let ghost all = lines(stderr@);
    let mut errors: Vec<String> = Vec::new();
    let mut warnings: Vec<String> = Vec::new();
    let mut k: usize = 0;
    while k < ls.len()
        invariant
            ls.deep_view() == all,
            error_word@ == seq!['e', 'r', 'r', 'o', 'r'],
            warning_word@ == seq!['w', 'a', 'r', 'n', 'i', 'n', 'g'],
            k <= ls.len(),
            (errors.deep_view(), warnings.deep_view()) == diagnostics_of_lines(all.take(k as int)),
        decreases ls.len() - k,
    {
        assert(all.take(k + 1).drop_last() =~= all.take(k as int));
        assert(all.take(k + 1).last() == all[k as int]);
        let lower = to_lowercase(ls[k].as_str());
        let lv = chars_of(lower.as_str());
        let ghost e0 = errors.deep_view();
        let ghost w0 = warnings.deep_view();
        if contains_exec(&lv, &error_word) {
            errors.push(ls[k].clone());
            assert(errors.deep_view() =~= e0.push(all[k as int]));
        } else if contains_exec(&lv, &warning_word) {
            warnings.push(ls[k].clone());
            assert(warnings.deep_view() =~= w0.push(all[k as int]));
        }
        k = k + 1;
    }
    assert(all.take(ls.len() as int) =~= all);
    (errors, warnings)
}

} // verus!
