//! The preprocessor: removes line comments and splices in the files that a
//! program includes, before the text is parsed.
use crate::comments::lemma_strip_without_comment;
use crate::comments::starts_comment;
use crate::comments::strip_chars;
use crate::comments::strip_comments_spec;
use crate::directive::directive_at;
use crate::directive::directive_end;
use crate::directive::directive_free;
use crate::directive::directive_text;
use crate::directive::find_directive;
use crate::directive::lemma_directive_bounds;
use crate::directive::lemma_directive_syntax;
use crate::error::LoweringError;
use crate::text::chars_of;
use crate::text::is_space;
use crate::text::same_text;
use crate::text::string_of;
use vstd::prelude::*;

verus! {

/// A text that can be included: the name by which directives refer to it,
/// and its contents.
#[derive(Debug, PartialEq, Eq)]
pub struct IncludeFile {
    pub name: String,
    pub text: String,
}

/// The position of the first of `files`, from position `k` on, that is
/// called `name`.
pub open spec fn find_file(files: Seq<IncludeFile>, name: Seq<char>, k: int) -> Option<int>
    decreases files.len() - k,
{
    if k < 0 || k >= files.len() {
        None
    } else if files[k].name@ == name {
        Some(k)
    } else {
        find_file(files, name, k + 1)
    }
}

/// Why a text cannot be expanded.
#[derive(Debug, PartialEq, Eq)]
pub enum ExpandError {
    /// A directive names this file, and no file of that name is at hand.
    Missing(String),
    /// A file includes itself, directly or through other files.
    Cycle,
}

/// What an [`ExpandError`] stands for.
pub enum ExpandFailure {
    Missing(Seq<char>),
    Cycle,
}

impl View for ExpandError {
    type V = ExpandFailure;

    open spec fn view(&self) -> ExpandFailure {
        match *self {
            ExpandError::Missing(name) => ExpandFailure::Missing(name@),
            ExpandError::Cycle => ExpandFailure::Cycle,
        }
    }
}

/// Two expanded pieces of text, one after the other. Where a piece failed to
/// expand, its failure is the outcome, that of the first piece before that
/// of the second.
pub open spec fn join(
    first: Result<Seq<char>, ExpandFailure>,
    second: Result<Seq<char>, ExpandFailure>,
) -> Result<Seq<char>, ExpandFailure> {
    match first {
        Err(e) => Err(e),
        Ok(a) => match second {
            Err(e) => Err(e),
            Ok(b) => Ok(a + b),
        },
    }
}

/// Whether `open` lists positions among `n` files, none of them twice: the
/// files that are being expanded at some moment, the outermost first.
pub open spec fn is_chain(open: Seq<int>, n: nat) -> bool {
    &&& open.no_duplicates()
    &&& forall|j: int| 0 <= j < open.len() ==> 0 <= #[trigger] open[j] < n
}

/// The text from position `i` on with every inclusion directive replaced by
/// the expansion of the file it names, or the first failure met on the way.
///
/// `open` lists the files in whose expansion this text is met. A directive
/// that names none of `files` fails as `Missing`; one that names a file
/// which is among `open`, and so would include itself, fails as `Cycle`.
/// Otherwise the contents of the file are stripped of comments and expanded
/// in turn, with the file among the open ones. Text outside directives is
/// copied as it stands.
pub open spec fn expand_from(s: Seq<char>, i: int, files: Seq<IncludeFile>, open: Seq<int>)
    -> Result<Seq<char>, ExpandFailure>
    decreases files.len() - open.len(), s.len() - i,
    when is_chain(open, files.len())
    via expand_from_terminates
{
    if i < 0 || i >= s.len() {
        Ok(Seq::empty())
    } else {
        match directive_at(s, i) {
            Some((start, n)) => match find_file(files, s.subrange(start, start + n), 0) {
                None => Err(ExpandFailure::Missing(s.subrange(start, start + n))),
                Some(k) => if open.contains(k) {
                    Err(ExpandFailure::Cycle)
                } else {
                    join(
                        expand_from(strip_comments_spec(files[k].text@), 0, files, open.push(k)),
                        expand_from(s, start + n + 2, files, open),
                    )
                },
            },
            None => join(Ok(seq![s[i]]), expand_from(s, i + 1, files, open)),
        }
    }
}

#[via_fn]
proof fn expand_from_terminates(s: Seq<char>, i: int, files: Seq<IncludeFile>, open: Seq<int>) {
    lemma_directive_bounds(s, i);
    if 0 <= i < s.len() && directive_at(s, i) is Some {
        let (start, n) = directive_at(s, i)->0;
        let name = s.subrange(start, start + n);
        lemma_find_file(files, name, 0);
        if find_file(files, name, 0) is Some && !open.contains(find_file(files, name, 0)->0) {
            lemma_chain_grows(open, find_file(files, name, 0)->0, files.len());
        }
    }
}

/// What preprocessing makes of a source text, given the files that can be
/// included: comments are removed, then directives are expanded, no file
/// being open at the start.
pub open spec fn process_spec(input: Seq<char>, files: Seq<IncludeFile>) -> Result<
    Seq<char>,
    ExpandFailure,
> {
    expand_from(strip_comments_spec(input), 0, files, Seq::empty())
}

/// A file that was found stands among the files, at or behind the position
/// where the search began, and has the name asked for.
pub proof fn lemma_find_file(files: Seq<IncludeFile>, name: Seq<char>, k: int)
    requires
        0 <= k,
    ensures
        match find_file(files, name, k) {
            Some(at) => k <= at < files.len() && files[at].name@ == name,
            None => true,
        },
    decreases files.len() - k,
{
    if k < files.len() && files[k].name@ != name {
        lemma_find_file(files, name, k + 1);
    }
}

/// No more files can be open at a time than there are files.
pub proof fn lemma_chain_length(open: Seq<int>, n: nat)
    requires
        is_chain(open, n),
    ensures
        open.len() <= n,
{
    let range = vstd::set_lib::set_int_range(0, n as int);
    vstd::set_lib::lemma_int_range(0, n as int);
    open.unique_seq_to_set();
    assert(open.to_set().subset_of(range)) by {
        assert forall|x: int| open.to_set().contains(x) implies range.contains(x) by {
            let j = choose|j: int| 0 <= j < open.len() && open[j] == x;
            assert(0 <= open[j] < n);
        }
    }
    vstd::set_lib::lemma_len_subset(open.to_set(), range);
}

/// A file that is not open can be opened: the files then open are still a
/// chain, and so there was room for one more.
pub proof fn lemma_chain_grows(open: Seq<int>, k: int, n: nat)
    requires
        is_chain(open, n),
        0 <= k < n,
        !open.contains(k),
    ensures
        is_chain(open.push(k), n),
        open.len() < n,
{
    let longer = open.push(k);
    assert forall|a: int, b: int| 0 <= a < longer.len() && 0 <= b < longer.len() && a
        != b implies longer[a] != longer[b] by {
        if a < open.len() && b < open.len() {
            assert(open[a] != open[b]);
        } else if a < open.len() {
            assert(open.contains(open[a]));
        } else {
            assert(open.contains(open[b]));
        }
    }
    lemma_chain_length(longer, n);
}

/// Finds the first of `files` that is called `name`.
pub fn lookup_file(files: &Vec<IncludeFile>, name: &str) -> (r: Option<usize>)
    ensures
        match r {
            Some(k) => k < files.len() && find_file(files@, name@, 0) == Some(k as int),
            None => find_file(files@, name@, 0) is None,
        },
{
    let mut k: usize = 0;
    while k < files.len()
        invariant
            k <= files.len(),
            find_file(files@, name@, 0) == find_file(files@, name@, k as int),
        decreases files.len() - k,
    {
        if same_text(files[k].name.as_str(), name) {
            return Some(k);
        }
        k += 1;
    }
    None
}

/// The positions that a list of open files holds.
pub open spec fn positions(open: Seq<usize>) -> Seq<int> {
    Seq::new(open.len(), |j: int| open[j] as int)
}

/// Whether the file at position `k` is among the open ones.
fn is_open(open: &Vec<usize>, k: usize) -> (r: bool)
    ensures
        r == positions(open@).contains(k as int),
{
    let mut j: usize = 0;
    while j < open.len()
        invariant
            j <= open.len(),
            forall|l: int| 0 <= l < j ==> positions(open@)[l] != k,
        decreases open.len() - j,
    {
        if open[j] == k {
            assert(positions(open@)[j as int] == k);
            return true;
        }
        j += 1;
    }
    false
}

/// Expands the directives of a text held as characters: see
/// [`expand_from`]. The list of open files is handed back as it came.
pub fn expand_chars(s: &Vec<char>, files: &Vec<IncludeFile>, open: &mut Vec<usize>) -> (r: Result<
    Vec<char>,
    ExpandError,
>)
    requires
        is_chain(positions(old(open)@), files@.len()),
    ensures
        final(open)@ == old(open)@,
        match r {
            Ok(out) => expand_from(s@, 0, files@, positions(old(open)@)) == Ok::<
                Seq<char>,
                ExpandFailure,
            >(out@),
            Err(e) => expand_from(s@, 0, files@, positions(old(open)@)) == Err::<
                Seq<char>,
                ExpandFailure,
            >(e@),
        },
    decreases files.len() - old(open).len(),
{
    let ghost chain = positions(open@);
    let ghost before_all = open@;
    let mut out: Vec<char> = Vec::new();
    let mut i: usize = 0;
    proof {
        let all = expand_from(s@, 0, files@, chain);
        if all is Ok {
            assert(out@ + all->Ok_0 =~= all->Ok_0);
        }
    }
    while i < s.len()
        invariant
            i <= s.len(),
            open@ == before_all,
            before_all == old(open)@,
            chain == positions(open@),
            is_chain(chain, files@.len()),
            expand_from(s@, 0, files@, chain) == join(
                Ok(out@),
                expand_from(s@, i as int, files@, chain),
            ),
        decreases s.len() - i,
    {
        let ghost before = out@;
        match find_directive(s, i) {
            Some((start, end)) => {
                let name = string_of(s, start, end);
                match lookup_file(files, name.as_str()) {
                    None => {
                        return Err(ExpandError::Missing(name));
                    },
                    Some(k) => {
                        if is_open(open, k) {
                            return Err(ExpandError::Cycle);
                        }
                        proof {
                            lemma_chain_grows(chain, k as int, files@.len());
                        }
                        let text = chars_of(files[k].text.as_str());
                        let stripped = strip_chars(&text);
                        open.push(k);
                        assert(positions(open@) =~= chain.push(k as int));
                        let inner = expand_chars(&stripped, files, open);
                        open.pop();
                        assert(open@ =~= before_all);
                        match inner {
                            Err(e) => {
                                return Err(e);
                            },
                            Ok(mut body) => {
                                let ghost included = body@;
                                out.append(&mut body);
                                proof {
                                    let rest = expand_from(s@, end + 2, files@, chain);
                                    if rest is Ok {
                                        assert(out@ + rest->Ok_0 =~= before + (included
                                            + rest->Ok_0));
                                    }
                                }
                                i = end + 2;
                            },
                        }
                    },
                }
            },
            None => {
                out.push(s[i]);
                proof {
                    let rest = expand_from(s@, i + 1, files@, chain);
                    if rest is Ok {
                        assert(out@ + rest->Ok_0 =~= before + (seq![s@[i as int]] + rest->Ok_0));
                    }
                }
                i += 1;
            },
        }
    }
    assert(out@ + Seq::<char>::empty() =~= out@);
    Ok(out)
}

/// Preprocesses a source text: removes its comments and replaces every
/// inclusion directive by the preprocessed contents of the file it names,
/// taken from `files`. Where that cannot be done, the failure says which
/// file is wanted, or that a file includes itself.
pub fn expand(input: &str, files: &Vec<IncludeFile>) -> (r: Result<String, ExpandError>)
    ensures
        match r {
            Ok(text) => process_spec(input@, files@) == Ok::<Seq<char>, ExpandFailure>(text@),
            Err(e) => process_spec(input@, files@) == Err::<Seq<char>, ExpandFailure>(e@),
        },
{
    let chars = chars_of(input);
    let stripped = strip_chars(&chars);
    let mut open: Vec<usize> = Vec::new();
    assert(positions(open@) =~= Seq::<int>::empty());
    match expand_chars(&stripped, files, &mut open) {
        Err(e) => Err(e),
        Ok(out) => {
            let text = string_of(&out, 0, out.len());
            assert(out@.subrange(0, out@.len() as int) =~= out@);
            Ok(text)
        },
    }
}

/// Preprocesses a source text like [`expand`], and fails with `IOFailure`
/// where a named file is not among `files`, or where a file includes itself,
/// directly or through other files.
pub fn process(input: &str, files: &Vec<IncludeFile>) -> (r: Result<String, LoweringError>)
    ensures
        match r {
            Ok(text) => process_spec(input@, files@) == Ok::<Seq<char>, ExpandFailure>(text@),
            Err(e) => e == LoweringError::IOFailure && process_spec(input@, files@) is Err,
        },
{
    match expand(input, files) {
        Ok(text) => Ok(text),
        Err(_) => Err(LoweringError::IOFailure),
    }
}

/// What a directive that names `name` is replaced by while the files `open`
/// are being expanded: the expansion of the stripped contents of the file,
/// or the failure where the file is unknown, is open itself, or fails to
/// expand.
pub open spec fn included(name: Seq<char>, files: Seq<IncludeFile>, open: Seq<int>) -> Result<
    Seq<char>,
    ExpandFailure,
> {
    match find_file(files, name, 0) {
        None => Err(ExpandFailure::Missing(name)),
        Some(k) => if open.contains(k) {
            Err(ExpandFailure::Cycle)
        } else {
            expand_from(strip_comments_spec(files[k].text@), 0, files, open.push(k))
        },
    }
}

/// Expansion is transitive: a directive is replaced by the expansion of the
/// file it names, in which the directives of that file are replaced in turn,
/// and the text after the directive follows directly.
pub proof fn lemma_expand_splices(s: Seq<char>, i: int, files: Seq<IncludeFile>, open: Seq<int>)
    requires
        0 <= i < s.len(),
        directive_at(s, i) is Some,
        is_chain(open, files.len()),
    ensures
        ({
            let (start, n) = directive_at(s, i)->0;
            expand_from(s, i, files, open) == join(
                included(s.subrange(start, start + n), files, open),
                expand_from(s, start + n + 2, files, open),
            )
        }),
{
    let (start, n) = directive_at(s, i)->0;
    let name = s.subrange(start, start + n);
    let rest = expand_from(s, start + n + 2, files, open);
    lemma_directive_bounds(s, i);
    lemma_find_file(files, name, 0);
    match find_file(files, name, 0) {
        None => {
            assert(expand_from(s, i, files, open) == Err::<Seq<char>, ExpandFailure>(
                ExpandFailure::Missing(name),
            ));
        },
        Some(k) => {
            if open.contains(k) {
                assert(expand_from(s, i, files, open) == Err::<Seq<char>, ExpandFailure>(
                    ExpandFailure::Cycle,
                ));
            } else {
                lemma_chain_grows(open, k, files.len());
                assert(expand_from(s, i, files, open) == join(
                    expand_from(strip_comments_spec(files[k].text@), 0, files, open.push(k)),
                    rest,
                ));
            }
        },
    }
}

/// Text in which no directive starts is copied as it stands, and expansion
/// goes on behind it.
pub proof fn lemma_expand_copies(
    s: Seq<char>,
    i: int,
    k: int,
    files: Seq<IncludeFile>,
    open: Seq<int>,
)
    requires
        0 <= i <= k <= s.len(),
        directive_free(s, i, k),
        is_chain(open, files.len()),
    ensures
        expand_from(s, i, files, open) == join(
            Ok(s.subrange(i, k)),
            expand_from(s, k, files, open),
        ),
    decreases k - i,
{
    let rest = expand_from(s, k, files, open);
    if i < k {
        lemma_expand_copies(s, i + 1, k, files, open);
        assert(directive_at(s, i) is None);
        if rest is Ok {
            assert(seq![s[i]] + (s.subrange(i + 1, k) + rest->Ok_0) =~= s.subrange(i, k)
                + rest->Ok_0);
        }
    } else {
        if rest is Ok {
            assert(s.subrange(i, k) + rest->Ok_0 =~= rest->Ok_0);
        }
    }
}

/// Text without directives is its own expansion.
pub proof fn lemma_expand_without_directives(
    s: Seq<char>,
    files: Seq<IncludeFile>,
    open: Seq<int>,
)
    requires
        directive_free(s, 0, s.len() as int),
        is_chain(open, files.len()),
    ensures
        expand_from(s, 0, files, open) == Ok::<Seq<char>, ExpandFailure>(s),
{
    lemma_expand_copies(s, 0, s.len() as int, files, open);
    assert(s.subrange(0, s.len() as int) + Seq::<char>::empty() =~= s);
}

/// Expansion preserves order. In a text whose only directives start at
/// `first` and, behind the end of that one, at `second`, each directive is
/// replaced, at the place where it stands, by the expansion of its file: the
/// result is the text before the first directive, the first file, the text
/// between the directives, the second file, and the text after the second
/// directive.
pub proof fn lemma_inclusions_in_order(
    s: Seq<char>,
    first: int,
    second: int,
    files: Seq<IncludeFile>,
    open: Seq<int>,
)
    requires
        is_chain(open, files.len()),
        0 <= first < s.len(),
        directive_at(s, first) is Some,
        directive_end(s, first) <= second < s.len(),
        directive_at(s, second) is Some,
        directive_free(s, 0, first),
        directive_free(s, directive_end(s, first), second),
        directive_free(s, directive_end(s, second), s.len() as int),
    ensures
        ({
            let (start1, n1) = directive_at(s, first)->0;
            let (start2, n2) = directive_at(s, second)->0;
            let end1 = start1 + n1 + 2;
            let end2 = start2 + n2 + 2;
            expand_from(s, 0, files, open) == join(
                join(
                    join(
                        join(
                            Ok(s.subrange(0, first)),
                            included(s.subrange(start1, start1 + n1), files, open),
                        ),
                        Ok(s.subrange(end1, second)),
                    ),
                    included(s.subrange(start2, start2 + n2), files, open),
                ),
                Ok(s.subrange(end2, s.len() as int)),
            )
        }),
{
    let (start1, n1) = directive_at(s, first)->0;
    let (start2, n2) = directive_at(s, second)->0;
    let end1 = start1 + n1 + 2;
    let end2 = start2 + n2 + 2;
    let body1 = included(s.subrange(start1, start1 + n1), files, open);
    let body2 = included(s.subrange(start2, start2 + n2), files, open);
    lemma_directive_bounds(s, first);
    lemma_directive_bounds(s, second);
    lemma_expand_copies(s, 0, first, files, open);
    lemma_expand_splices(s, first, files, open);
    lemma_expand_copies(s, end1, second, files, open);
    lemma_expand_splices(s, second, files, open);
    lemma_expand_copies(s, end2, s.len() as int, files, open);
    let tail = s.subrange(end2, s.len() as int);
    assert(expand_from(s, end2, files, open) == Ok::<Seq<char>, ExpandFailure>(tail)) by {
        assert(tail + Seq::<char>::empty() =~= tail);
    }
    if body1 is Ok && body2 is Ok {
        let a = s.subrange(0, first);
        let b = s.subrange(end1, second);
        assert(a + (body1->Ok_0 + (b + (body2->Ok_0 + tail))) =~= (((a + body1->Ok_0) + b)
            + body2->Ok_0) + tail);
    }
}

/// A directive alone is replaced: the text before it and the text behind it
/// keep their places. Where the text of a directive stands between `before`
/// and `after`, its name holding no double quote and no line break, and no
/// other directive starts in the whole text, the result is `before`, the
/// expansion of the named file, and `after`.
pub proof fn lemma_inclusion_in_place(
    before: Seq<char>,
    gap: Seq<char>,
    name: Seq<char>,
    after: Seq<char>,
    files: Seq<IncludeFile>,
    open: Seq<int>,
)
    requires
        is_chain(open, files.len()),
        forall|k: int| 0 <= k < gap.len() ==> is_space(#[trigger] gap[k]),
        forall|k: int| 0 <= k < name.len() ==> #[trigger] name[k] != '\n' && name[k] != '"',
        ({
            let s = before + directive_text(gap, name) + after;
            &&& directive_free(s, 0, before.len() as int)
            &&& directive_free(s, s.len() - after.len(), s.len() as int)
        }),
    ensures
        expand_from(before + directive_text(gap, name) + after, 0, files, open) == join(
            join(Ok(before), included(name, files, open)),
            Ok(after),
        ),
{
    let s = before + directive_text(gap, name) + after;
    let at = before.len() as int;
    let end = s.len() - after.len();
    lemma_directive_syntax(before, gap, name, after);
    lemma_expand_copies(s, 0, at, files, open);
    lemma_expand_splices(s, at, files, open);
    lemma_expand_copies(s, end, s.len() as int, files, open);
    assert(s.subrange(0, at) =~= before);
    assert(s.subrange(end, s.len() as int) =~= after);
    assert(expand_from(s, end, files, open) == Ok::<Seq<char>, ExpandFailure>(after)) by {
        assert(after + Seq::<char>::empty() =~= after);
    }
    let body = included(name, files, open);
    if body is Ok {
        assert(before + (body->Ok_0 + after) =~= (before + body->Ok_0) + after);
    }
}

/// Two directives, each replaced where it stands. Where the texts of two
/// directives stand in a text, with `between` (which may be empty: the
/// directives may follow one another directly, on one line) between them,
/// and no other directive starts in the text, the result is `before`, the
/// first file, `between`, the second file, and `after`.
pub proof fn lemma_two_inclusions(
    before: Seq<char>,
    first: Seq<char>,
    between: Seq<char>,
    second: Seq<char>,
    after: Seq<char>,
    files: Seq<IncludeFile>,
    open: Seq<int>,
)
    requires
        is_chain(open, files.len()),
        forall|k: int| 0 <= k < first.len() ==> #[trigger] first[k] != '\n' && first[k] != '"',
        forall|k: int| 0 <= k < second.len() ==> #[trigger] second[k] != '\n' && second[k] != '"',
        ({
            let gap = seq![' '];
            let one = directive_text(gap, first);
            let two = directive_text(gap, second);
            let s = before + one + between + two + after;
            &&& directive_free(s, 0, before.len() as int)
            &&& directive_free(
                s,
                (before.len() + one.len()) as int,
                (before.len() + one.len() + between.len()) as int,
            )
            &&& directive_free(s, s.len() - after.len(), s.len() as int)
        }),
    ensures
        ({
            let gap = seq![' '];
            let s = before + directive_text(gap, first) + between + directive_text(gap, second)
                + after;
            expand_from(s, 0, files, open) == join(
                join(
                    join(join(Ok(before), included(first, files, open)), Ok(between)),
                    included(second, files, open),
                ),
                Ok(after),
            )
        }),
{
    let gap = seq![' '];
    let one = directive_text(gap, first);
    let two = directive_text(gap, second);
    let s = before + one + between + two + after;
    let at1 = before.len() as int;
    let at2 = (before.len() + one.len() + between.len()) as int;
    assert(s =~= before + one + (between + two + after));
    lemma_directive_syntax(before, gap, first, between + two + after);
    assert(s =~= (before + one + between) + two + after);
    lemma_directive_syntax(before + one + between, gap, second, after);
    lemma_inclusions_in_order(s, at1, at2, files, open);
    let (start1, n1) = directive_at(s, at1)->0;
    let (start2, n2) = directive_at(s, at2)->0;
    assert(s.subrange(0, at1) =~= before);
    assert(s.subrange(start1 + n1 + 2, at2) =~= between);
    assert(s.subrange(start2 + n2 + 2, s.len() as int) =~= after);
}

/// Text that holds neither a comment nor a directive is left as it is, by
/// itself and as the contents of an included file.
pub proof fn lemma_plain_text_is_kept(t: Seq<char>, files: Seq<IncludeFile>, open: Seq<int>)
    requires
        is_chain(open, files.len()),
        forall|j: int| !starts_comment(t, j),
        directive_free(t, 0, t.len() as int),
    ensures
        expand_from(strip_comments_spec(t), 0, files, open) == Ok::<Seq<char>, ExpandFailure>(t),
        process_spec(t, files) == Ok::<Seq<char>, ExpandFailure>(t),
{
    lemma_strip_without_comment(t, 0);
    assert(t.subrange(0, t.len() as int) =~= t);
    lemma_expand_without_directives(t, files, open);
    lemma_expand_without_directives(t, files, Seq::empty());
}

} // verus!
