//! What a command line asks for.

use vstd::prelude::*;

use crate::chars::{same_chars, to_chars};
use crate::digits::{parse_usize, parsed_usize};
use crate::prompt::text_views;

verus! {

/// The flags and the text of a request.
pub struct Request {
    pub cuda: bool,
    /// How often the text is spoken.
    pub repeats: usize,
    pub text: Option<String>,
}

/// An argument that is no text.
pub open spec fn is_flag(arg: Seq<char>) -> bool {
    arg.len() >= 2 && arg[0] == '-' && arg[1] == '-'
}

/// The first place of `arg` among `args`, from `from` on.
pub open spec fn place_of(args: Seq<Seq<char>>, arg: Seq<char>, from: int) -> Option<int>
    decreases args.len() - from,
{
    if from < 0 || from >= args.len() {
        None
    } else if args[from] == arg {
        Some(from)
    } else {
        place_of(args, arg, from + 1)
    }
}

/// The place of the number of repeats and the number, where they are given.
pub open spec fn repeat_given(args: Seq<Seq<char>>) -> Option<(int, usize)> {
    match place_of(args, "--repeat"@, 0) {
        Some(p) => if p + 1 < args.len() {
            match parsed_usize(args[p + 1]) {
                Some(n) => Some((p + 1, n)),
                None => None,
            }
        } else {
            None
        },
        None => None,
    }
}

/// The first argument, from `from` on, that is neither a flag nor the number of
/// repeats.
pub open spec fn text_place(args: Seq<Seq<char>>, from: int) -> Option<int>
    decreases args.len() - from,
{
    if from < 0 || from >= args.len() {
        None
    } else if !is_flag(args[from]) && !(repeat_given(args) matches Some((p, _)) && p == from) {
        Some(from)
    } else {
        text_place(args, from + 1)
    }
}

fn first_place(args: &Vec<String>, arg: &str) -> (r: Option<usize>)
    ensures
        match r {
            Some(i) => place_of(text_views(args@), arg@, 0) == Some(i as int) && i < args@.len(),
            None => place_of(text_views(args@), arg@, 0) is None,
        },
{
    let wanted = to_chars(arg);
    for i in 0..args.len()
        invariant
            wanted@ == arg@,
            place_of(text_views(args@), arg@, 0) == place_of(text_views(args@), arg@, i as int),
    {
        assert(text_views(args@)[i as int] == args@[i as int]@);
        let chars = to_chars(&args[i]);
        if same_chars(&chars, &wanted) {
            return Some(i);
        }
    }
    None
}

/// Reads the arguments behind the name of a command.
pub fn parse_request(args: &Vec<String>) -> (r: Request)
    ensures
        ({
            let views = text_views(args@);
            &&& r.cuda == views.contains("--cuda"@)
            &&& r.repeats == match repeat_given(views) {
                Some((_, n)) => n,
                None => 1usize,
            }
            &&& match text_place(views, 0) {
                Some(i) => r.text matches Some(text) && text@ == views[i],
                None => r.text is None,
            }
        }),
{
    let ghost views = text_views(args@);
    let total: usize = args.len();
    let cuda = first_place(args, "--cuda").is_some();
    proof {
        lemma_place_of(views, "--cuda"@, 0);
    }
    let mut repeats: usize = 1;
    let mut number_at: Option<usize> = None;
    match first_place(args, "--repeat") {
        Some(p) => {
            if p + 1 < total {
                assert(views[p + 1] == args@[p + 1]@);
                let chars = to_chars(&args[p + 1]);
                if let Some(n) = parse_usize(&chars) {
                    repeats = n;
                    number_at = Some(p + 1);
                }
            }
        },
        None => {},
    }
    for i in 0..total
        invariant
            total == args@.len(),
            views == text_views(args@),
            cuda == views.contains("--cuda"@),
            match number_at {
                Some(p) => repeat_given(views) == Some((p as int, repeats)),
                None => repeat_given(views) is None && repeats == 1,
            },
            text_place(views, 0) == text_place(views, i as int),
    {
        assert(views[i as int] == args@[i as int]@);
        let chars = to_chars(&args[i]);
        let flag = chars.len() >= 2 && chars[0] == '-' && chars[1] == '-';
        let number = match number_at {
            Some(p) => p == i,
            None => false,
        };
        if !flag && !number {
            return Request { cuda, repeats, text: Some(args[i].clone()) };
        }
    }
    Request { cuda, repeats, text: None }
}

proof fn lemma_place_of(args: Seq<Seq<char>>, arg: Seq<char>, from: int)
    requires
        0 <= from,
    ensures
        place_of(args, arg, from) is Some <==> exists|i: int| from <= i < args.len() && args[i] == arg,
    decreases args.len() - from,
{
    if from < args.len() {
        lemma_place_of(args, arg, from + 1);
    }
}

/// The text that is found is an argument, and neither a flag nor the number of
/// repeats; where none is found, all arguments are one of these.
pub proof fn law_text_is_no_option(args: Seq<Seq<char>>, i: int)
    requires
        0 <= i < args.len(),
    ensures
        ({
            let is_option = is_flag(args[i]) || (repeat_given(args) matches Some((p, _)) && p == i);
            &&& text_place(args, 0) == Some(i) ==> !is_option
            &&& text_place(args, 0) is None ==> is_option
        }),
{
    lemma_text_place(args, 0, i);
}

proof fn lemma_text_place(args: Seq<Seq<char>>, from: int, i: int)
    requires
        0 <= from <= i < args.len(),
    ensures
        ({
            let is_option = is_flag(args[i]) || (repeat_given(args) matches Some((p, _)) && p == i);
            &&& text_place(args, from) == Some(i) ==> !is_option
            &&& text_place(args, from) is None ==> is_option
        }),
    decreases args.len() - from,
{
    lemma_text_place_bound(args, from + 1);
    if from < i {
        lemma_text_place(args, from + 1, i);
    }
}

proof fn lemma_text_place_bound(args: Seq<Seq<char>>, from: int)
    requires
        0 <= from,
    ensures
        text_place(args, from) matches Some(i) ==> from <= i < args.len(),
    decreases args.len() - from,
{
    if from < args.len() {
        lemma_text_place_bound(args, from + 1);
    }
}

/// CUDA is asked for where the flag is among the arguments. The number of repeats
/// is the argument behind the first flag for it, where that is a number, and one
/// everywhere else.
pub proof fn law_flags_are_heeded(args: &Vec<String>, r: Request, p: int)
    requires
        call_ensures(parse_request, (args,), r),
    ensures
        r.cuda <==> exists|i: int| 0 <= i < args@.len() && (#[trigger] args@[i])@ == "--cuda"@,
        (forall|i: int| 0 <= i < args@.len() ==> (#[trigger] args@[i])@ != "--repeat"@)
            ==> r.repeats == 1,
        0 <= p < args@.len() && args@[p]@ == "--repeat"@ && (forall|i: int|
            0 <= i < p ==> (#[trigger] args@[i])@ != "--repeat"@) ==> r.repeats == if p + 1
            < args@.len() && parsed_usize(args@[p + 1]@) is Some {
            parsed_usize(args@[p + 1]@).unwrap()
        } else {
            1
        },
{
    let views = text_views(args@);
    assert forall|i: int| 0 <= i < args@.len() implies views[i] == (#[trigger] args@[i])@ by {}
    if r.cuda {
        let i = choose|i: int| 0 <= i < views.len() && views[i] == "--cuda"@;
        assert(args@[i]@ == "--cuda"@);
    }
    if exists|i: int| 0 <= i < args@.len() && (#[trigger] args@[i])@ == "--cuda"@ {
        let i = choose|i: int| 0 <= i < args@.len() && (#[trigger] args@[i])@ == "--cuda"@;
        assert(views[i] == "--cuda"@);
    }
    lemma_place_of(views, "--repeat"@, 0);
    if 0 <= p < args@.len() && args@[p]@ == "--repeat"@ && (forall|i: int|
        0 <= i < p ==> (#[trigger] args@[i])@ != "--repeat"@) {
        lemma_first_place(views, "--repeat"@, 0, p);
    }
}

proof fn lemma_first_place(args: Seq<Seq<char>>, arg: Seq<char>, from: int, p: int)
    requires
        0 <= from <= p < args.len(),
        args[p] == arg,
        forall|i: int| from <= i < p ==> args[i] != arg,
    ensures
        place_of(args, arg, from) == Some(p),
    decreases p - from,
{
    if from < p {
        lemma_first_place(args, arg, from + 1, p);
    }
}

/// The text is the first argument that does not start with two hyphens and is
/// not the number of repeats, as it stands; where all arguments are of these two
/// kinds, there is none.
pub proof fn law_text_is_the_first_other_argument(args: &Vec<String>, r: Request, k: int, i: int)
    requires
        call_ensures(parse_request, (args,), r),
        0 <= k <= args@.len(),
        forall|j: int|
            0 <= j < k ==> {
                ||| (#[trigger] args@[j])@.len() >= 2 && args@[j]@[0] == '-' && args@[j]@[1] == '-'
                ||| j > 0 && args@[j - 1]@ == "--repeat"@ && parsed_usize(args@[j]@) is Some
                    && forall|m: int| 0 <= m < j - 1 ==> (#[trigger] args@[m])@ != "--repeat"@
            },
    ensures
        k == args@.len() ==> r.text is None,
        k < args@.len() && !(args@[k]@.len() >= 2 && args@[k]@[0] == '-' && args@[k]@[1] == '-')
            && !(k > 0 && args@[k - 1]@ == "--repeat"@ && parsed_usize(args@[k]@) is Some)
            ==> r.text is Some && r.text->Some_0@ == args@[k]@,
{
    let views = text_views(args@);
    assert forall|j: int| 0 <= j < args@.len() implies views[j] == (#[trigger] args@[j])@ by {}
    assert forall|j: int| 0 <= j < k implies is_flag(#[trigger] views[j]) || (repeat_given(views)
        matches Some((p, _)) && p == j) by {
        if !is_flag(views[j]) {
            assert(args@[j]@ == views[j]);
            assert(args@[j - 1]@ == views[j - 1]);
            lemma_first_place(views, "--repeat"@, 0, j - 1);
        }
    }
    lemma_skipped(views, 0, k);
    if k < args@.len() && !is_flag(views[k]) && !(k > 0 && args@[k - 1]@ == "--repeat"@
        && parsed_usize(args@[k]@) is Some) {
        lemma_place_of_is_there(views, "--repeat"@, 0);
        assert(!(repeat_given(views) matches Some((p, _)) && p == k)) by {
            if repeat_given(views) matches Some((p, _)) && p == k {
                assert(views[k - 1] == "--repeat"@);
                assert(args@[k - 1]@ == views[k - 1]);
            }
        }
    }
}

proof fn lemma_place_of_is_there(args: Seq<Seq<char>>, arg: Seq<char>, from: int)
    requires
        0 <= from,
    ensures
        place_of(args, arg, from) matches Some(p) ==> from <= p < args.len() && args[p] == arg,
    decreases args.len() - from,
{
    if from < args.len() {
        lemma_place_of_is_there(args, arg, from + 1);
    }
}

proof fn lemma_skipped(args: Seq<Seq<char>>, from: int, k: int)
    requires
        0 <= from <= k <= args.len(),
        forall|j: int|
            from <= j < k ==> is_flag(#[trigger] args[j]) || (repeat_given(args) matches Some((p, _))
                && p == j),
    ensures
        text_place(args, from) == text_place(args, k),
    decreases k - from,
{
    if from < k {
        assert(is_flag(args[from]) || (repeat_given(args) matches Some((p, _)) && p == from));
        lemma_skipped(args, from + 1, k);
    }
}

} // verus!
