//! Cleaning of the texts that go into a prompt.

use vstd::prelude::*;

use crate::chars::{copy_range, find, is_whitespace, to_chars, to_text, trim_bounds};
use crate::chars::{occurs, occurs_at, trim_back, trim_front, trimmed, white_space};
use crate::unassigned::{is_unassigned, unassigned};

verus! {

/// Hangul, Kana, CJK ideographs and their punctuation and width forms.
pub open spec fn cjk(c: char) -> bool {
    let u = c as u32;
    ||| 0x1100 <= u <= 0x11FF
    ||| 0x2E80 <= u <= 0x2FDF
    ||| 0x3000 <= u <= 0x30FF
    ||| 0x3100 <= u <= 0x31FF
    ||| 0x3400 <= u <= 0x4DBF
    ||| 0x4E00 <= u <= 0x9FFF
    ||| 0xA960 <= u <= 0xA97F
    ||| 0xAC00 <= u <= 0xD7A3
    ||| 0xD7B0 <= u <= 0xD7FF
    ||| 0xF900 <= u <= 0xFAFF
    ||| 0xFE30 <= u <= 0xFE4F
    ||| 0xFF01 <= u <= 0xFF9F
    ||| 0x20000 <= u <= 0x2FA1F
}

pub fn is_cjk(c: char) -> (r: bool)
    ensures
        r == cjk(c),
{
    let u: u32 = c as u32;
    (0x1100 <= u && u <= 0x11FF) || (0x2E80 <= u && u <= 0x2FDF) || (0x3000 <= u && u <= 0x303F)
        || (0x3040 <= u && u <= 0x30FF) || (0x3100 <= u && u <= 0x31FF) || (0x3400 <= u && u
        <= 0x4DBF) || (0x4E00 <= u && u <= 0x9FFF) || (0xA960 <= u && u <= 0xA97F) || (0xAC00 <= u
        && u <= 0xD7A3) || (0xD7B0 <= u && u <= 0xD7FF) || (0xF900 <= u && u <= 0xFAFF) || (0xFE30
        <= u && u <= 0xFE4F) || (0xFF01 <= u && u <= 0xFF9F) || (0x20000 <= u && u <= 0x2FA1F)
}

/// The characters that end a line.
pub open spec fn line_break(c: char) -> bool {
    let u = c as u32;
    ||| 0xA <= u <= 0xD
    ||| 0x1C <= u <= 0x1E
    ||| u == 0x85
    ||| u == 0x2028
    ||| u == 0x2029
}

pub fn is_line_break(c: char) -> (r: bool)
    ensures
        r == line_break(c),
{
    let u: u32 = c as u32;
    u == 0xD || u == 0xA || u == 0xB || u == 0xC || (0x1C <= u && u <= 0x1E) || u == 0x85 || u
        == 0x2028 || u == 0x2029
}

/// Characters of the Unicode category for control characters.
pub open spec fn control(u: u32) -> bool {
    u <= 0x1F || 0x7F <= u <= 0x9F
}

/// Characters of the Unicode category for format characters.
pub open spec fn format_character(u: u32) -> bool {
    ||| u == 0xAD
    ||| 0x600 <= u <= 0x605
    ||| u == 0x61C
    ||| u == 0x6DD
    ||| u == 0x70F
    ||| 0x890 <= u <= 0x891
    ||| u == 0x8E2
    ||| u == 0x180E
    ||| 0x200B <= u <= 0x200F
    ||| 0x202A <= u <= 0x202E
    ||| 0x2060 <= u <= 0x2064
    ||| 0x2066 <= u <= 0x206F
    ||| u == 0xFEFF
    ||| 0xFFF9 <= u <= 0xFFFB
    ||| u == 0x110BD
    ||| u == 0x110CD
    ||| 0x13430 <= u <= 0x1343F
    ||| 0x1BCA0 <= u <= 0x1BCA3
    ||| 0x1D173 <= u <= 0x1D17A
    ||| u == 0xE0001
    ||| 0xE0020 <= u <= 0xE007F
}

/// Characters whose meaning is left to private agreement.
pub open spec fn private_use(u: u32) -> bool {
    ||| 0xE000 <= u <= 0xF8FF
    ||| 0xF0000 <= u <= 0xFFFFD
    ||| 0x100000 <= u <= 0x10FFFD
}

/// The halves of surrogate pairs.
pub open spec fn surrogate(u: u32) -> bool {
    0xD800 <= u <= 0xDFFF
}

/// The characters of the Unicode categories whose names start with C, which are
/// dropped from a text: control, format, surrogate, private use and unassigned.
pub open spec fn control_or_format(c: char) -> bool {
    let u = c as u32;
    control(u) || format_character(u) || surrogate(u) || private_use(u) || unassigned(u)
}

fn is_format_character(u: u32) -> (r: bool)
    ensures
        r == format_character(u),
{
    u == 0xAD || (0x600 <= u && u <= 0x605) || u == 0x61C || u == 0x6DD || u == 0x70F
        || (0x890 <= u && u <= 0x891) || u == 0x8E2 || u == 0x180E
        || (0x200B <= u && u <= 0x200F) || (0x202A <= u && u <= 0x202E)
        || (0x2060 <= u && u <= 0x2064) || (0x2066 <= u && u <= 0x206F) || u == 0xFEFF
        || (0xFFF9 <= u && u <= 0xFFFB) || u == 0x110BD || u == 0x110CD
        || (0x13430 <= u && u <= 0x1343F) || (0x1BCA0 <= u && u <= 0x1BCA3)
        || (0x1D173 <= u && u <= 0x1D17A) || u == 0xE0001 || (0xE0020 <= u && u <= 0xE007F)
}

pub fn is_control_or_format(c: char) -> (r: bool)
    ensures
        r == control_or_format(c),
{
    let u: u32 = c as u32;
    let is_control = u <= 0x1F || (0x7F <= u && u <= 0x9F);
    let is_private = (0xE000 <= u && u <= 0xF8FF) || (0xF0000 <= u && u <= 0xFFFFD) || (0x100000 <= u && u <= 0x10FFFD);
    let is_surrogate = 0xD800 <= u && u <= 0xDFFF;
    is_control || is_format_character(u) || is_surrogate || is_private || is_unassigned(u)
}

/// What the first step of cleaning keeps: white space, and every character
/// that is neither control nor format.
pub open spec fn kept_char(c: char) -> bool {
    white_space(c) || !control_or_format(c)
}

pub open spec fn kept(s: Seq<char>) -> Seq<char> {
    s.filter(|c: char| kept_char(c))
}

/// The end of the run of white space that goes on at `i`.
pub open spec fn run_end(s: Seq<char>, i: int) -> int
    decreases s.len() - i,
{
    if 0 <= i < s.len() && white_space(s[i]) {
        run_end(s, i + 1)
    } else {
        i
    }
}

/// The run `i..j` of white space holds a line break and stands between two
/// CJK characters: it leaves nothing behind.
pub open spec fn vanishes(s: Seq<char>, i: int, j: int) -> bool {
    &&& exists|k: int| i <= k < j && line_break(#[trigger] s[k])
    &&& 0 < i
    &&& j < s.len()
    &&& cjk(s[i - 1])
    &&& cjk(s[j])
}

/// What position `i` of `s` leaves behind: the character itself; for white
/// space, one blank at the start of a run that does not vanish.
pub open spec fn left_by(s: Seq<char>, i: int) -> Seq<char> {
    if !white_space(s[i]) {
        seq![s[i]]
    } else if (i == 0 || !white_space(s[i - 1])) && !vanishes(s, i, run_end(s, i)) {
        seq![' ']
    } else {
        Seq::empty()
    }
}

/// What the first `n` positions of `s` leave behind.
pub open spec fn collapsed(s: Seq<char>, n: nat) -> Seq<char>
    decreases n,
{
    if n == 0 {
        Seq::empty()
    } else {
        collapsed(s, (n - 1) as nat) + left_by(s, n - 1)
    }
}

/// `s` with its runs of white space collapsed and its ends trimmed.
pub open spec fn normalized(s: Seq<char>) -> Seq<char> {
    trimmed(collapsed(s, s.len()))
}

/// `s` with unprintable characters dropped and white space normalized.
pub open spec fn cleaned(s: Seq<char>) -> Seq<char> {
    normalized(kept(s))
}

proof fn lemma_run_end(s: Seq<char>, i: int, j: int)
    requires
        0 <= i <= j <= s.len(),
        forall|k: int| i <= k < j ==> white_space(#[trigger] s[k]),
        j == s.len() || !white_space(s[j]),
    ensures
        run_end(s, i) == j,
    decreases j - i,
{
    if i < j {
        lemma_run_end(s, i + 1, j);
    }
}

/// A whole run leaves what its first position leaves.
proof fn lemma_run_collapsed(s: Seq<char>, i: int, j: int)
    requires
        0 <= i < j <= s.len(),
        forall|k: int| i <= k < j ==> white_space(#[trigger] s[k]),
    ensures
        collapsed(s, j as nat) == collapsed(s, i as nat) + left_by(s, i),
    decreases j - i,
{
    if j == i + 1 {
    } else {
        lemma_run_collapsed(s, i, j - 1);
        assert(white_space(s[j - 1]) && white_space(s[j - 2]));
        assert(left_by(s, j - 1) =~= Seq::<char>::empty());
        assert(collapsed(s, j as nat) =~= collapsed(s, (j - 1) as nat));
    }
}

fn run_has_break(chars: &[char], from: usize, to: usize) -> (r: bool)
    requires
        from <= to <= chars@.len(),
    ensures
        r == (exists|k: int| from <= k < to && line_break(#[trigger] chars@[k])),
{
    for k in from..to
        invariant
            from <= to <= chars@.len(),
            forall|m: int| from <= m < k ==> !line_break(#[trigger] chars@[m]),
    {
        if is_line_break(chars[k]) {
            return true;
        }
    }
    false
}

/// Collapses each run of white space to one blank, or to nothing where the
/// run holds a line break between two CJK characters, and trims the ends.
pub fn normalize_whitespace(text: &str) -> (r: String)
    ensures
        r@ == normalized(text@),
{
    let chars = to_chars(text);
    let n: usize = chars.len();
    let mut out: Vec<char> = Vec::new();
    let mut i: usize = 0;
    while i < n
        invariant
            chars@ == text@,
            n == chars@.len(),
            i <= n,
            i == 0 || i == n || !white_space(chars@[i - 1]) || !white_space(chars@[i as int]),
            out@ == collapsed(chars@, i as nat),
        decreases n - i,
    {
        if is_whitespace(chars[i]) {
            let start: usize = i;
            while i < n && is_whitespace(chars[i])
                invariant
                    chars@ == text@,
                    n == chars@.len(),
                    start <= i <= n,
                    start < n,
                    white_space(chars@[start as int]),
                    forall|k: int| start <= k < i ==> white_space(#[trigger] chars@[k]),
                decreases n - i,
            {
                i = i + 1;
            }
            assert(start < i);
            let has_break = run_has_break(&chars, start, i);
            let both_cjk = start > 0 && is_cjk(chars[start - 1]) && i < n && is_cjk(chars[i]);
            proof {
                lemma_run_end(chars@, start as int, i as int);
                lemma_run_collapsed(chars@, start as int, i as int);
            }
            if has_break && both_cjk {
                assert(left_by(chars@, start as int) =~= Seq::<char>::empty());
                assert(collapsed(chars@, i as nat) =~= out@);
            } else {
                out.push(' ');
                assert(collapsed(chars@, i as nat) =~= out@);
            }
        } else {
            out.push(chars[i]);
            i = i + 1;
            assert(collapsed(chars@, i as nat) =~= out@);
        }
    }
    let bounds = trim_bounds(&out);
    let kept_range = copy_range(&out, bounds.0, bounds.1);
    to_text(&kept_range)
}

/// Drops control and format characters and normalizes white space.
pub fn clean_text(text: &str) -> (r: String)
    ensures
        r@ == cleaned(text@),
{
    let chars = to_chars(text);
    let mut filtered: Vec<char> = Vec::new();
    let ghost keep = |c: char| kept_char(c);
    for i in 0..chars.len()
        invariant
            chars@ == text@,
            keep == (|c: char| kept_char(c)),
            filtered@ == chars@.take(i as int).filter(keep),
    {
        let c = chars[i];
        proof {
            assert(chars@.take(i + 1).drop_last() =~= chars@.take(i as int));
            reveal(Seq::filter);
        }
        if is_whitespace(c) || !is_control_or_format(c) {
            filtered.push(c);
        }
    }
    assert(chars@.take(chars@.len() as int) =~= chars@);
    let filtered_text = to_text(&filtered);
    normalize_whitespace(&filtered_text)
}

/// The mark that opens a speaker tag.
pub open spec fn speaker_mark() -> Seq<char> {
    "<|speaker:"@
}

/// The tag of the first speaker.
pub open spec fn speaker_tag() -> Seq<char> {
    "<|speaker:0|>"@
}

/// The reference text as it stands in a prompt: cleaned, and with the tag of
/// the first speaker in front unless it carries a speaker tag already.
pub open spec fn reference_form(s: Seq<char>) -> Seq<char> {
    if occurs(cleaned(s), speaker_mark()) {
        cleaned(s)
    } else {
        speaker_tag() + cleaned(s)
    }
}

pub fn format_reference_text(text: &str) -> (r: String)
    ensures
        r@ == reference_form(text@),
{
    let cleaned_text = clean_text(text);
    let chars = to_chars(&cleaned_text);
    let mark = to_chars("<|speaker:");
    match find(&chars, &mark) {
        Some(at) => {
            assert(occurs_at(chars@, mark@, at as int));
            cleaned_text
        },
        None => {
            let mut out = String::new();
            out.append("<|speaker:0|>");
            out.append(&cleaned_text);
            assert(out@ =~= speaker_tag() + cleaned(text@));
            out
        },
    }
}

/// The form of a cleaned text: nothing unprintable, no white space but single
/// blanks, and no blank at either end.
pub open spec fn tidy(t: Seq<char>) -> bool {
    forall|i: int|
        #![trigger t[i]]
        0 <= i < t.len() ==> {
            &&& !control_or_format(t[i])
            &&& white_space(t[i]) ==> t[i] == ' ' && 0 < i < t.len() - 1 && !white_space(t[i - 1])
        }
}

/// As `tidy`, with blanks allowed at the two ends.
spec fn single_blanks(t: Seq<char>) -> bool {
    forall|i: int|
        #![trigger t[i]]
        0 <= i < t.len() ==> {
            &&& !control_or_format(t[i])
            &&& white_space(t[i]) ==> t[i] == ' ' && (i == 0 || !white_space(t[i - 1]))
        }
}

proof fn lemma_filter_all(s: Seq<char>)
    ensures
        forall|i: int| 0 <= i < kept(s).len() ==> kept_char(#[trigger] kept(s)[i]),
    decreases s.len(),
{
    reveal(Seq::filter);
    if s.len() > 0 {
        lemma_filter_all(s.drop_last());
    }
}

proof fn lemma_filter_same(s: Seq<char>)
    requires
        forall|i: int| 0 <= i < s.len() ==> kept_char(#[trigger] s[i]),
    ensures
        kept(s) == s,
    decreases s.len(),
{
    reveal(Seq::filter);
    if s.len() > 0 {
        assert forall|i: int| 0 <= i < s.drop_last().len() implies kept_char(
            #[trigger] s.drop_last()[i],
        ) by {
            assert(s.drop_last()[i] == s[i]);
        }
        lemma_filter_same(s.drop_last());
        assert(kept_char(s[s.len() - 1]));
        assert(s.drop_last().push(s.last()) =~= s);
    }
    assert(kept(s) =~= s);
}

proof fn lemma_collapsed_form(s: Seq<char>, n: nat)
    requires
        n <= s.len(),
        forall|i: int| 0 <= i < s.len() ==> kept_char(#[trigger] s[i]),
    ensures
        single_blanks(collapsed(s, n)),
        collapsed(s, n).len() > 0 && white_space(collapsed(s, n).last()) ==> white_space(s[n - 1]),
    decreases n,
{
    if n > 0 {
        let m = (n - 1) as nat;
        lemma_collapsed_form(s, m);
        let a = collapsed(s, m);
        let b = left_by(s, m as int);
        let t = collapsed(s, n);
        assert(kept_char(s[m as int]));
        assert forall|i: int| 0 <= i < t.len() implies {
            &&& !control_or_format(#[trigger] t[i])
            &&& white_space(t[i]) ==> t[i] == ' ' && (i == 0 || !white_space(t[i - 1]))
        } by {
            if i < a.len() {
                assert(t[i] == a[i]);
                if i > 0 {
                    assert(t[i - 1] == a[i - 1]);
                }
            } else {
                assert(i == a.len());
                assert(t[i] == b[0]);
                if a.len() > 0 {
                    assert(t[i - 1] == a.last());
                }
            }
        }
    }
}

proof fn lemma_trim_front(s: Seq<char>)
    ensures
        trim_front(s).len() == 0 || !white_space(trim_front(s)[0]),
        single_blanks(s) ==> single_blanks(trim_front(s)),
    decreases s.len(),
{
    if s.len() > 0 && white_space(s[0]) {
        let t = s.drop_first();
        if single_blanks(s) {
            assert forall|i: int| 0 <= i < t.len() implies {
                &&& !control_or_format(#[trigger] t[i])
                &&& white_space(t[i]) ==> t[i] == ' ' && (i == 0 || !white_space(t[i - 1]))
            } by {
                assert(t[i] == s[i + 1]);
            }
        }
        lemma_trim_front(t);
    }
}

proof fn lemma_trim_back(s: Seq<char>)
    requires
        s.len() == 0 || !white_space(s[0]),
    ensures
        trim_back(s).len() > 0 ==> !white_space(trim_back(s).last()) && !white_space(
            trim_back(s)[0],
        ),
        single_blanks(s) ==> single_blanks(trim_back(s)),
    decreases s.len(),
{
    if s.len() > 0 && white_space(s.last()) {
        let t = s.drop_last();
        if single_blanks(s) {
            assert forall|i: int| 0 <= i < t.len() implies {
                &&& !control_or_format(#[trigger] t[i])
                &&& white_space(t[i]) ==> t[i] == ' ' && (i == 0 || !white_space(t[i - 1]))
            } by {
                assert(t[i] == s[i]);
            }
        }
        lemma_trim_back(t);
    }
}

/// A cleaned text holds nothing unprintable, no white space but single
/// blanks, and no blank at its ends.
pub proof fn law_cleaned_is_tidy(s: Seq<char>)
    ensures
        tidy(cleaned(s)),
{
    let k = kept(s);
    lemma_filter_all(s);
    lemma_collapsed_form(k, k.len());
    let c = collapsed(k, k.len());
    lemma_trim_front(c);
    lemma_trim_back(trim_front(c));
    let t = cleaned(s);
    assert(single_blanks(t));
    assert forall|i: int| 0 <= i < t.len() implies {
        &&& !control_or_format(#[trigger] t[i])
        &&& white_space(t[i]) ==> t[i] == ' ' && 0 < i < t.len() - 1 && !white_space(t[i - 1])
    } by {}
}

proof fn lemma_collapsed_tidy(t: Seq<char>, n: nat)
    requires
        tidy(t),
        n <= t.len(),
    ensures
        collapsed(t, n) == t.take(n as int),
    decreases n,
{
    if n > 0 {
        let m = n - 1;
        lemma_collapsed_tidy(t, m as nat);
        if white_space(t[m]) {
            assert(t[m] == ' ' && 0 < m < t.len() - 1 && !white_space(t[m - 1]));
            assert(!white_space(t[m + 1])) by {
                if white_space(t[m + 1]) {
                    assert(!white_space(t[m + 1 - 1]));
                }
            }
            lemma_run_end(t, m, m + 1);
            assert(!vanishes(t, m, m + 1));
        }
        assert(left_by(t, m) =~= seq![t[m]]);
        assert(t.take(n as int) =~= t.take(m) + seq![t[m]]);
    }
    assert(collapsed(t, n) =~= t.take(n as int));
}

proof fn lemma_tidy_is_clean(t: Seq<char>)
    requires
        tidy(t),
    ensures
        cleaned(t) == t,
{
    assert forall|i: int| 0 <= i < t.len() implies kept_char(#[trigger] t[i]) by {}
    lemma_filter_same(t);
    lemma_collapsed_tidy(t, t.len());
    assert(t.take(t.len() as int) =~= t);
    if t.len() > 0 {
        assert(!white_space(t[0]));
        assert(!white_space(t[t.len() - 1]));
    }
}

/// Cleaning a cleaned text changes nothing.
pub proof fn law_clean_text_idempotent(s: Seq<char>)
    ensures
        cleaned(cleaned(s)) == cleaned(s),
{
    law_cleaned_is_tidy(s);
    lemma_tidy_is_clean(cleaned(s));
}

/// A reference text always carries a speaker tag once it is formatted, and
/// ends with its cleaned text.
pub proof fn law_reference_text_is_tagged(s: Seq<char>)
    ensures
        occurs(reference_form(s), speaker_mark()),
        cleaned(s).len() <= reference_form(s).len(),
        reference_form(s).skip(reference_form(s).len() - cleaned(s).len()) == cleaned(s),
{
    let f = reference_form(s);
    assert(f.skip(f.len() - cleaned(s).len()) =~= cleaned(s));
    if !occurs(cleaned(s), speaker_mark()) {
        reveal_strlit("<|speaker:");
        reveal_strlit("<|speaker:0|>");
        assert(f.subrange(0, 0int + speaker_mark().len()) =~= speaker_mark());
        assert(occurs_at(f, speaker_mark(), 0));
    }
}

/// Formatting a formatted reference text changes nothing.
pub proof fn law_reference_text_idempotent(s: Seq<char>)
    ensures
        reference_form(reference_form(s)) == reference_form(s),
{
    law_cleaned_is_tidy(s);
    law_reference_text_is_tagged(s);
    let c = cleaned(s);
    let f = reference_form(s);
    if occurs(c, speaker_mark()) {
        lemma_tidy_is_clean(c);
    } else {
        let tag = speaker_tag();
        reveal_strlit("<|speaker:0|>");
        assert forall|i: int| 0 <= i < f.len() implies {
            &&& !control_or_format(#[trigger] f[i])
            &&& white_space(f[i]) ==> f[i] == ' ' && 0 < i < f.len() - 1 && !white_space(f[i - 1])
        } by {
            if i < tag.len() {
                assert(f[i] == tag[i]);
            } else {
                assert(f[i] == c[i - tag.len()]);
                if i > tag.len() {
                    assert(f[i - 1] == c[i - 1 - tag.len()]);
                }
            }
        }
        lemma_tidy_is_clean(f);
    }
}

proof fn lemma_kept_joins(a: Seq<char>, b: Seq<char>)
    ensures
        kept(a + b) == kept(a) + kept(b),
    decreases b.len(),
{
    reveal(Seq::filter);
    if b.len() == 0 {
        assert(a + b =~= a);
        assert(kept(a) + kept(b) =~= kept(a));
    } else {
        let front = b.drop_last();
        lemma_kept_joins(a, front);
        assert((a + b).drop_last() =~= a + front);
        assert((a + b).last() == b.last());
        assert(kept(a + b) =~= kept(a) + kept(b));
    }
}

/// What is visible at the ends of a text stays there.
proof fn lemma_kept_ends(a: Seq<char>)
    requires
        a.len() > 0,
    ensures
        kept_char(a.last()) ==> kept(a).len() > 0 && kept(a).last() == a.last(),
        kept_char(a[0]) ==> kept(a).len() > 0 && kept(a)[0] == a[0],
    decreases a.len(),
{
    reveal(Seq::filter);
    if a.len() > 1 {
        lemma_kept_ends(a.drop_last());
    }
}

/// A visible character in front of a part keeps it apart from what is before.
proof fn lemma_left_by_behind(front: Seq<char>, s: Seq<char>, i: int)
    requires
        s.len() > 0,
        !white_space(s[0]),
        0 <= i < s.len(),
    ensures
        left_by(front + s, front.len() + i) == left_by(s, i),
{
    let t = front + s;
    let at = front.len() + i;
    assert(t[at] == s[i]);
    if white_space(s[i]) {
        assert(t[at - 1] == s[i - 1]);
        lemma_run_end_bounds(s, i);
        let j = run_end(s, i);
        assert forall|k: int| at <= k < front.len() + j implies white_space(#[trigger] t[k]) by {
            assert(t[k] == s[k - front.len()]);
        }
        if j < s.len() {
            assert(t[front.len() + j] == s[j]);
        }
        lemma_run_end(t, at, front.len() + j);
        let hidden = vanishes(s, i, j);
        if hidden {
            let k = choose|k: int| i <= k < j && line_break(#[trigger] s[k]);
            assert(t[front.len() + k] == s[k]);
        }
        if vanishes(t, at, front.len() + j) {
            let k = choose|k: int| at <= k < front.len() + j && line_break(#[trigger] t[k]);
            assert(s[k - front.len()] == t[k]);
        }
        assert(vanishes(t, at, front.len() + j) == hidden);
    }
}

proof fn lemma_run_end_bounds(s: Seq<char>, i: int)
    requires
        0 <= i <= s.len(),
    ensures
        i <= run_end(s, i) <= s.len(),
        forall|k: int| i <= k < run_end(s, i) ==> white_space(#[trigger] s[k]),
        run_end(s, i) < s.len() ==> !white_space(s[run_end(s, i)]),
    decreases s.len() - i,
{
    if i < s.len() && white_space(s[i]) {
        lemma_run_end_bounds(s, i + 1);
    }
}

/// A visible character at the end of a part keeps it apart from what follows.
proof fn lemma_left_by_before(s: Seq<char>, back: Seq<char>, i: int)
    requires
        s.len() > 0,
        !white_space(s.last()),
        0 <= i < s.len(),
    ensures
        left_by(s + back, i) == left_by(s, i),
{
    let t = s + back;
    assert(t[i] == s[i]);
    if white_space(s[i]) {
        lemma_run_end_bounds(s, i);
        let j = run_end(s, i);
        assert(j < s.len()) by {
            if j == s.len() {
                assert(white_space(s[s.len() - 1]));
            }
        }
        assert forall|k: int| i <= k < j implies white_space(#[trigger] t[k]) by {
            assert(t[k] == s[k]);
        }
        assert(t[j] == s[j]);
        lemma_run_end(t, i, j);
        if i > 0 {
            assert(t[i - 1] == s[i - 1]);
        }
        if vanishes(s, i, j) {
            let k = choose|k: int| i <= k < j && line_break(#[trigger] s[k]);
            assert(t[k] == s[k]);
        }
        if vanishes(t, i, j) {
            let k = choose|k: int| i <= k < j && line_break(#[trigger] t[k]);
            assert(s[k] == t[k]);
        }
    }
}

proof fn lemma_collapsed_before(s: Seq<char>, back: Seq<char>, n: nat)
    requires
        s.len() > 0,
        !white_space(s.last()),
        n <= s.len(),
    ensures
        collapsed(s + back, n) == collapsed(s, n),
    decreases n,
{
    if n > 0 {
        lemma_collapsed_before(s, back, (n - 1) as nat);
        lemma_left_by_before(s, back, n - 1);
    }
}

proof fn lemma_collapsed_behind(front: Seq<char>, s: Seq<char>, n: nat)
    requires
        s.len() > 0,
        !white_space(s[0]),
        n <= s.len(),
    ensures
        collapsed(front + s, front.len() + n) == collapsed(front + s, front.len()) + collapsed(s, n),
    decreases n,
{
    let t = front + s;
    if n == 0 {
        assert(collapsed(t, front.len()) + collapsed(s, 0) =~= collapsed(t, front.len()));
    } else {
        lemma_collapsed_behind(front, s, (n - 1) as nat);
        lemma_left_by_behind(front, s, n - 1);
        assert(collapsed(t, front.len() + n) =~= collapsed(t, front.len()) + collapsed(s, n));
    }
}

/// What is visible at the ends of a text stays there when runs are collapsed.
proof fn lemma_collapsed_ends(s: Seq<char>, n: nat)
    requires
        0 < n <= s.len(),
    ensures
        !white_space(s[n - 1]) ==> collapsed(s, n).len() > 0 && collapsed(s, n).last() == s[n - 1],
        !white_space(s[0]) ==> collapsed(s, n).len() > 0 && collapsed(s, n)[0] == s[0],
    decreases n,
{
    if n > 1 {
        lemma_collapsed_ends(s, (n - 1) as nat);
    } else {
        assert(collapsed(s, 0) =~= Seq::<char>::empty());
        assert(collapsed(s, 1) =~= left_by(s, 0));
    }
}

proof fn lemma_trim_front_joins(a: Seq<char>, b: Seq<char>)
    requires
        a.len() > 0,
        !white_space(a.last()),
    ensures
        trim_front(a + b) == trim_front(a) + b,
        trim_front(a).len() > 0,
        trim_front(a).last() == a.last(),
    decreases a.len(),
{
    if white_space(a[0]) {
        assert(a.len() > 1);
        assert((a + b).drop_first() =~= a.drop_first() + b);
        assert((a + b)[0] == a[0]);
        lemma_trim_front_joins(a.drop_first(), b);
    } else {
        assert((a + b)[0] == a[0]);
    }
}

proof fn lemma_trim_back_joins(a: Seq<char>, b: Seq<char>)
    requires
        b.len() > 0,
        !white_space(b[0]),
    ensures
        trim_back(a + b) == a + trim_back(b),
    decreases b.len(),
{
    assert((a + b).last() == b.last());
    if white_space(b.last()) {
        assert(b.len() > 1);
        assert((a + b).drop_last() =~= a + b.drop_last());
        lemma_trim_back_joins(a, b.drop_last());
    }
}

proof fn lemma_white_is_kept(w: Seq<char>)
    requires
        forall|k: int| 0 <= k < w.len() ==> white_space(#[trigger] w[k]),
    ensures
        kept(w) == w,
{
    assert forall|k: int| 0 <= k < w.len() implies kept_char(#[trigger] w[k]) by {
        assert(white_space(w[k]));
    }
    lemma_filter_same(w);
}

/// White space between two visible characters always leaves one blank, and the
/// text on both sides is cleaned as if it stood alone. Only where it holds a
/// line break and both characters are CJK does it leave nothing.
pub proof fn law_white_space_between_words_leaves_one_blank(
    a: Seq<char>,
    w: Seq<char>,
    b: Seq<char>,
)
    requires
        a.len() > 0,
        !white_space(a.last()) && !control_or_format(a.last()),
        b.len() > 0,
        !white_space(b[0]) && !control_or_format(b[0]),
        w.len() > 0,
        forall|k: int| 0 <= k < w.len() ==> white_space(#[trigger] w[k]),
    ensures
        !cjk(a.last()) || !cjk(b[0]) ==> cleaned(a + w + b) == cleaned(a) + seq![' '] + cleaned(b),
        (forall|k: int| 0 <= k < w.len() ==> !line_break(#[trigger] w[k])) ==> cleaned(a + w + b)
            == cleaned(a) + seq![' '] + cleaned(b),
        cjk(a.last()) && cjk(b[0]) && (exists|k: int|
            0 <= k < w.len() && line_break(#[trigger] w[k])) ==> cleaned(a + w + b) == cleaned(a)
            + cleaned(b),
{
    let ka = kept(a);
    let kb = kept(b);
    lemma_kept_joins(a + w, b);
    lemma_kept_joins(a, w);
    lemma_white_is_kept(w);
    lemma_kept_ends(a);
    lemma_kept_ends(b);
    let front = ka + w;
    let s = front + kb;
    assert(kept(a + w + b) == s);
    let n = ka.len();
    let m = front.len();
    assert(s =~= ka + (w + kb));
    lemma_collapsed_before(ka, w + kb, n);
    assert forall|k: int| n <= k < m implies white_space(#[trigger] s[k]) by {
        assert(s[k] == w[k - n]);
    }
    assert(s[m as int] == kb[0]);
    assert(s[n - 1] == ka.last());
    lemma_run_end(s, n as int, m as int);
    lemma_run_collapsed(s, n as int, m as int);
    lemma_collapsed_behind(front, kb, kb.len());
    let ca = collapsed(ka, n);
    let cb = collapsed(kb, kb.len());
    let x = left_by(s, n as int);
    assert(collapsed(s, s.len()) == ca + x + cb);
    lemma_collapsed_ends(ka, n);
    lemma_collapsed_ends(kb, kb.len());
    lemma_trim_front_joins(ca, x + cb);
    lemma_trim_front_joins(ca, Seq::empty());
    assert(ca + Seq::<char>::empty() =~= ca);
    assert(ca + x + cb =~= ca + (x + cb));
    let fa = trim_front(ca);
    lemma_trim_back_joins(fa + x, cb);
    assert(fa + (x + cb) =~= fa + x + cb);
    assert(trim_back(fa) == fa);
    assert(trim_front(cb) == cb);
    assert(cleaned(a) == fa);
    assert(cleaned(b) == trim_back(cb));
    assert(cleaned(a + w + b) == fa + x + cleaned(b));
    let hidden = vanishes(s, n as int, m as int);
    if exists|k: int| 0 <= k < w.len() && line_break(#[trigger] w[k]) {
        let k = choose|k: int| 0 <= k < w.len() && line_break(#[trigger] w[k]);
        assert(s[n + k] == w[k]);
    }
    if exists|k: int| n <= k < m && line_break(#[trigger] s[k]) {
        let k = choose|k: int| n <= k < m && line_break(#[trigger] s[k]);
        assert(w[k - n] == s[k]);
    }
    assert(fa + Seq::<char>::empty() + cleaned(b) =~= fa + cleaned(b));
}

/// The same of three calls: a text that is put together from two parts with white
/// space between them is cleaned to the cleaned parts with one blank between
/// them, or with none where a line is broken between two CJK characters.
pub proof fn law_clean_text_goes_word_by_word(
    text: &str,
    r: String,
    left: &str,
    a: String,
    w: Seq<char>,
    right: &str,
    b: String,
)
    requires
        call_ensures(clean_text, (text,), r),
        call_ensures(clean_text, (left,), a),
        call_ensures(clean_text, (right,), b),
        text@ == left@ + w + right@,
        left@.len() > 0,
        !white_space(left@.last()) && !control_or_format(left@.last()),
        right@.len() > 0,
        !white_space(right@[0]) && !control_or_format(right@[0]),
        w.len() > 0,
        forall|k: int| 0 <= k < w.len() ==> white_space(#[trigger] w[k]),
    ensures
        r@ == a@ + seq![' '] + b@ || r@ == a@ + b@,
        r@ != a@ + seq![' '] + b@ ==> cjk(left@.last()) && cjk(right@[0]) && exists|k: int|
            0 <= k < w.len() && line_break(#[trigger] w[k]),
        r@ != a@ + b@ ==> !cjk(left@.last()) || !cjk(right@[0]) || forall|k: int|
            0 <= k < w.len() ==> !line_break(#[trigger] w[k]),
{
    law_white_space_between_words_leaves_one_blank(left@, w, right@);
}

/// White space in front of a text and behind it leaves nothing, and white space
/// alone is no text.
pub proof fn law_outer_white_space_leaves_nothing(w: Seq<char>, s: Seq<char>, v: Seq<char>)
    requires
        forall|k: int| 0 <= k < w.len() ==> white_space(#[trigger] w[k]),
        forall|k: int| 0 <= k < v.len() ==> white_space(#[trigger] v[k]),
        s.len() > 0,
        !white_space(s[0]) && !control_or_format(s[0]),
        !white_space(s.last()) && !control_or_format(s.last()),
    ensures
        cleaned(w + s + v) == cleaned(s),
        cleaned(w) == Seq::<char>::empty(),
{
    let ks = kept(s);
    lemma_kept_joins(w + s, v);
    lemma_kept_joins(w, s);
    lemma_white_is_kept(w);
    lemma_white_is_kept(v);
    lemma_kept_ends(s);
    let t = w + ks + v;
    assert(kept(w + s + v) == t);
    assert(t =~= w + (ks + v));
    let rest = ks + v;
    assert(rest[0] == ks[0]);
    lemma_collapsed_behind(w, rest, rest.len());
    lemma_collapsed_before(ks, v, ks.len());
    lemma_white_collapses(t, 0, w.len());
    lemma_white_collapses(rest, ks.len(), rest.len());
    let front = collapsed(t, w.len());
    let c = collapsed(ks, ks.len());
    let back = collapsed(rest, rest.len()).skip(c.len() as int);
    assert(collapsed(rest, rest.len()) =~= c + back);
    assert(collapsed(t, t.len()) == front + (c + back));
    lemma_collapsed_ends(ks, ks.len());
    lemma_trim_white_front(front, c + back);
    assert((c + back)[0] == c[0]);
    assert(trim_front(c + back) == c + back);
    lemma_trim_white_back(c, back);
    assert(trim_front(c) == c);
    // The white space alone.
    lemma_white_collapses(w, 0, w.len());
    let only = collapsed(w, w.len());
    assert(collapsed(w, 0) =~= Seq::<char>::empty());
    assert(only.skip(0) =~= only);
    lemma_trim_white_front(only, Seq::empty());
    assert(only + Seq::<char>::empty() =~= only);
}

/// A stretch of white space leaves blanks only.
proof fn lemma_white_collapses(s: Seq<char>, n: nat, m: nat)
    requires
        n <= m <= s.len(),
        forall|k: int| n <= k < m ==> white_space(#[trigger] s[k]),
    ensures
        collapsed(s, n).len() <= collapsed(s, m).len(),
        collapsed(s, m).take(collapsed(s, n).len() as int) == collapsed(s, n),
        forall|k: int|
            collapsed(s, n).len() <= k < collapsed(s, m).len() ==> #[trigger] collapsed(s, m)[k]
                == ' ',
    decreases m - n,
{
    let a = collapsed(s, n);
    if n < m {
        lemma_white_collapses(s, n, (m - 1) as nat);
        let b = collapsed(s, (m - 1) as nat);
        let c = collapsed(s, m);
        assert(c.take(a.len() as int) =~= b.take(a.len() as int));
        assert forall|k: int| a.len() <= k < c.len() implies #[trigger] c[k] == ' ' by {
            if k < b.len() {
                assert(c[k] == b[k]);
            }
        }
    } else {
        assert(a.take(a.len() as int) =~= a);
    }
}

proof fn lemma_trim_white_front(w: Seq<char>, s: Seq<char>)
    requires
        forall|k: int| 0 <= k < w.len() ==> #[trigger] w[k] == ' ',
    ensures
        trim_front(w + s) == trim_front(s),
    decreases w.len(),
{
    if w.len() == 0 {
        assert(w + s =~= s);
    } else {
        assert((w + s)[0] == w[0]);
        assert((w + s).drop_first() =~= w.drop_first() + s);
        lemma_trim_white_front(w.drop_first(), s);
    }
}

proof fn lemma_trim_white_back(s: Seq<char>, w: Seq<char>)
    requires
        forall|k: int| 0 <= k < w.len() ==> #[trigger] w[k] == ' ',
    ensures
        trim_back(s + w) == trim_back(s),
    decreases w.len(),
{
    if w.len() == 0 {
        assert(s + w =~= s);
    } else {
        assert((s + w).last() == w.last());
        assert((s + w).drop_last() =~= s + w.drop_last());
        lemma_trim_white_back(s, w.drop_last());
    }
}

/// An unprintable character counts as if it were not there, and a text of visible
/// characters is left as it is.
pub proof fn law_only_the_unprintable_is_dropped(a: Seq<char>, c: char, b: Seq<char>)
    ensures
        control_or_format(c) && !white_space(c) ==> cleaned(a + seq![c] + b) == cleaned(a + b),
        (forall|k: int|
            0 <= k < a.len() ==> !white_space(#[trigger] a[k]) && !control_or_format(a[k]))
            ==> cleaned(a) == a,
{
    reveal(Seq::filter);
    lemma_kept_joins(a + seq![c], b);
    lemma_kept_joins(a, seq![c]);
    lemma_kept_joins(a, b);
    assert(seq![c].drop_last() =~= Seq::<char>::empty());
    if control_or_format(c) && !white_space(c) {
        assert(kept(Seq::<char>::empty()) =~= Seq::<char>::empty());
        assert(seq![c].last() == c);
        assert(kept(seq![c]) =~= Seq::<char>::empty());
        assert(kept(a) + kept(seq![c]) =~= kept(a));
    }
    if forall|k: int|
        0 <= k < a.len() ==> !white_space(#[trigger] a[k]) && !control_or_format(a[k]) {
        assert(tidy(a));
        lemma_tidy_is_clean(a);
    }
}

/// The line breaks are the feeds and returns, the separators of files, groups,
/// records, lines and paragraphs, and the next line.
pub proof fn law_line_breaks(c: char)
    ensures
        line_break(c) <==> c == '\n' || c == '\r' || c == '\u{b}' || c == '\u{c}' || c == '\u{1c}'
            || c == '\u{1d}' || c == '\u{1e}' || c == '\u{85}' || c == '\u{2028}' || c
            == '\u{2029}',
{
}

/// A reference text with a speaker tag anywhere in it is only cleaned; any other
/// one gets the tag of the first speaker in front, and nothing else is changed.
pub proof fn law_reference_text_is_tagged_once(text: &str, r: String, at: int)
    requires
        call_ensures(format_reference_text, (text,), r),
    ensures
        0 <= at && at + 10 <= cleaned(text@).len() && cleaned(text@).subrange(at, at + 10)
            == "<|speaker:"@ ==> r@ == cleaned(text@),
        (forall|k: int|
            0 <= k && k + 10 <= cleaned(text@).len() ==> #[trigger] cleaned(text@).subrange(
                k,
                k + 10,
            ) != "<|speaker:"@) ==> r@ == "<|speaker:0|>"@ + cleaned(text@),
{
    reveal_strlit("<|speaker:");
    let c = cleaned(text@);
    if 0 <= at && at + 10 <= c.len() && c.subrange(at, at + 10) == "<|speaker:"@ {
        assert(occurs_at(c, "<|speaker:"@, at));
    }
    if occurs(c, "<|speaker:"@) {
        let k = choose|k: int| occurs_at(c, "<|speaker:"@, k);
        assert(c.subrange(k, k + 10) == "<|speaker:"@);
    }
}

} // verus!
