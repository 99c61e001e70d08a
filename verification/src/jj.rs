use vstd::prelude::*;

verus! {

use crate::find::find;
use crate::find::find_str;
use crate::find::lemma_find_from;
use crate::status::ChangeView;
use crate::status::FileChange;
use vstd::string::StrSliceExecFns;
use vstd::string::StringExecFns;
use std::sync::Arc;
use arc_swap::ArcSwap;

/// The separator that the backend writes between the two halves of a rename
/// infix.
pub open spec fn arrow_token() -> Seq<char> {
    seq![' ', '=', '>', ' ']
}

/// The rename grammar: a path is a rename exactly when it holds, in order, an
/// opening `{`, the literal ` => `, and a closing `}`. The first opening
/// brace is taken, then the first separator after it, then the first closing
/// brace after that. The two reconstructed paths share the prefix before the
/// `{` and the suffix after the `}`.
pub open spec fn rename_of(path: Seq<char>) -> Option<(Seq<char>, Seq<char>)> {
    match find(path, seq!['{']) {
        None => None,
        Some(i) => {
            let start = path.subrange(0, i);
            let rest = path.subrange(i + 1, path.len() as int);
            match find(rest, arrow_token()) {
                None => None,
                Some(j) => {
                    let from = rest.subrange(0, j);
                    let tail = rest.subrange(j + arrow_token().len() as int, rest.len() as int);
                    match find(tail, seq!['}']) {
                        None => None,
                        Some(k) => {
                            let to = tail.subrange(0, k);
                            let end = tail.subrange(k + 1, tail.len() as int);
                            Some((start + from + end, start + to + end))
                        },
                    }
                },
            }
        },
    }
}

/// The fixed status-code table. The first letter tells what the file was, the
/// second what it is now: `F` a file, `L` a link, `C` conflicted, `-` absent.
/// A code outside the table yields no event, for forward compatibility.
pub open spec fn code_change(status: Seq<char>, path: Seq<char>) -> Option<ChangeView> {
    if status.len() == 2 {
        let a = status[0];
        let b = status[1];
        if (a == 'F' && b == 'F') || (a == 'L' && b == 'L') || (a == 'C' && b == 'F') || (a == 'C'
            && b == 'L') || (a == 'F' && b == 'L') || (a == 'L' && b == 'F') {
            Some(ChangeView::Modified { path })
        } else if (a == '-' && b == 'F') || (a == '-' && b == 'L') {
            Some(ChangeView::Added { path })
        } else if (a == 'F' && b == '-') || (a == 'L' && b == '-') {
            Some(ChangeView::Deleted { path })
        } else if (a == 'F' && b == 'C') || (a == 'L' && b == 'C') {
            Some(ChangeView::Conflict { path })
        } else {
            None
        }
    } else {
        None
    }
}

/// Classification of one status line, split into its two-token status code
/// and the remainder of the line. Rename detection runs first and wins
/// regardless of the status code; only a path that is not a rename is
/// classified by the code table.
pub open spec fn classify_line_spec(status: Seq<char>, path: Seq<char>) -> Option<ChangeView> {
    match rename_of(path) {
        Some((from_path, to_path)) => Some(ChangeView::Renamed { from_path, to_path }),
        None => code_change(status, path),
    }
}

/// Detects the rename grammar in `path` and reconstructs the two paths, or
/// returns `None` when an opening brace, separator or closing brace is
/// missing in order.
pub fn find_rename(path: &str) -> (r: Option<FileChange>)
    ensures
        match r {
            Some(c) => rename_of(path@) matches Some(p) && c@ == (ChangeView::Renamed {
                from_path: p.0,
                to_path: p.1,
            }),
            None => rename_of(path@) is None,
        },
{
    let open_brace = "{";
    let arrow = " => ";
    let close_brace = "}";
    proof {
        reveal_strlit("{");
        reveal_strlit(" => ");
        reveal_strlit("}");
        assert(open_brace@ =~= seq!['{']);
        assert(arrow@ =~= arrow_token());
        assert(close_brace@ =~= seq!['}']);
    }
    let n = path.unicode_len();
    let i = match find_str(path, open_brace) {
        Some(i) => i,
        None => {
            return None;
        },
    };
    proof {
        lemma_find_from(path@, open_brace@, 0);
    }
    let rest = path.substring_char(i + 1, n);
    let rest_len = rest.unicode_len();
    let j = match find_str(rest, arrow) {
        Some(j) => j,
        None => {
            return None;
        },
    };
    proof {
        lemma_find_from(rest@, arrow@, 0);
    }
    let tail = rest.substring_char(j + 4, rest_len);
    let tail_len = tail.unicode_len();
    let k = match find_str(tail, close_brace) {
        Some(k) => k,
        None => {
            return None;
        },
    };
    proof {
        lemma_find_from(tail@, close_brace@, 0);
    }
    let start = path.substring_char(0, i);
    let from_part = rest.substring_char(0, j);
    let to_part = tail.substring_char(0, k);
    let end_part = tail.substring_char(k + 1, tail_len);
    let from_path = String::from_str(start).concat(from_part).concat(end_part);
    let to_path = String::from_str(start).concat(to_part).concat(end_part);
    Some(FileChange::Renamed { from_path, to_path })
}

/// Classifies one status line, already split into its status code and the
/// remainder. Rename detection runs first; a non-rename path is classified by
/// the fixed code table; anything else yields no event.
pub fn status_to_change(status: &str, path: &str) -> (r: Option<FileChange>)
    ensures
        match r {
            Some(c) => classify_line_spec(status@, path@) == Some(c@),
            None => classify_line_spec(status@, path@) is None,
        },
{
    if let Some(rename) = find_rename(path) {
        return Some(rename);
    }
    if status.unicode_len() != 2 {
        return None;
    }
    let a = status.get_char(0);
    let b = status.get_char(1);
    if (a == 'F' && b == 'F') || (a == 'L' && b == 'L') || (a == 'C' && b == 'F') || (a == 'C' && b
        == 'L') || (a == 'F' && b == 'L') || (a == 'L' && b == 'F') {
        Some(FileChange::Modified { path: String::from_str(path) })
    } else if (a == '-' && b == 'F') || (a == '-' && b == 'L') {
        Some(FileChange::Added { path: String::from_str(path) })
    } else if (a == 'F' && b == '-') || (a == 'L' && b == '-') {
        Some(FileChange::Deleted { path: String::from_str(path) })
    } else if (a == 'F' && b == 'C') || (a == 'L' && b == 'C') {
        Some(FileChange::Conflict { path: String::from_str(path) })
    } else {
        None
    }
}

/// The line that starts at position `p` of the backend output: it runs to the
/// first newline at or after `p` (with a carriage return directly before the
/// newline dropped), or to the end of the output when no newline is left.
pub open spec fn line_at(s: Seq<char>, p: int) -> Seq<char> {
    match crate::find::find_from(s, seq!['\n'], p) {
        None => s.subrange(p, s.len() as int),
        Some(i) => if i > p && s[i - 1] == '\r' {
            s.subrange(p, i - 1)
        } else {
            s.subrange(p, i)
        },
    }
}

/// The change event of one output line, if any: a line without a space
/// separator is skipped, otherwise it is split at the first space into the
/// status code and the path and classified.
pub open spec fn line_change(line: Seq<char>) -> Option<ChangeView> {
    match find(line, seq![' ']) {
        None => None,
        Some(i) => classify_line_spec(line.subrange(0, i), line.subrange(i + 1, line.len() as int)),
    }
}

/// The change events of the backend output from position `p` on, one line at
/// a time, in order.
pub open spec fn changes_from(s: Seq<char>, p: int) -> Seq<ChangeView>
    decreases s.len() - p,
    via changes_from_decreases
{
    if p < 0 || p >= s.len() {
        Seq::empty()
    } else {
        let here = match line_change(line_at(s, p)) {
            None => Seq::<ChangeView>::empty(),
            Some(c) => seq![c],
        };
        match crate::find::find_from(s, seq!['\n'], p) {
            None => here,
            Some(i) => here + changes_from(s, i + 1),
        }
    }
}

#[via_fn]
proof fn changes_from_decreases(s: Seq<char>, p: int) {
    if 0 <= p < s.len() {
        lemma_find_from(s, seq!['\n'], p);
    }
}

/// All change events carried by one complete backend output.
pub open spec fn changes_of_output(s: Seq<char>) -> Seq<ChangeView> {
    changes_from(s, 0)
}

/// Each line emits at most one change event and spans at least one character,
/// so the events are no more numerous than the characters left.
proof fn lemma_changes_from_len(s: Seq<char>, p: int)
    requires
        0 <= p <= s.len(),
    ensures
        changes_from(s, p).len() <= s.len() - p,
    decreases s.len() - p,
{
    if p < s.len() {
        lemma_find_from(s, seq!['\n'], p);
        match crate::find::find_from(s, seq!['\n'], p) {
            Some(i) => {
                lemma_changes_from_len(s, i + 1);
            },
            None => {
            },
        }
    }
}

/// What can go wrong when querying the backend.
///
/// `UnsupportedOperation` marks an operation that has no meaning for this
/// backend, as opposed to a transient failure; `InvocationFailure` a backend
/// run that did not exit successfully; `DecodingFailure` backend output that
/// was not valid text.
#[derive(Clone, Copy, Debug, PartialEq, Eq, Structural)]
pub enum Error {
    UnsupportedOperation,
    InvocationFailure,
    DecodingFailure,
}

/// Diff-base byte retrieval is structurally unsupported by this backend: the
/// call always fails with `UnsupportedOperation` and never consults the
/// backend.
pub fn get_diff_base(_file: &str) -> (r: Result<Vec<u8>, Error>)
    ensures
        r == Err::<Vec<u8>, Error>(Error::UnsupportedOperation),
{
    Err(Error::UnsupportedOperation)
}

/// Relies on String::from_utf8: it succeeds exactly on valid UTF-8 input and
/// returns that input decoded.
#[verifier::external_body]
fn decode_output(bytes: Vec<u8>) -> (r: Option<String>)
    ensures
        r is Some <==> vstd::utf8::valid_utf8(bytes@),
        r matches Some(s) ==> s@ == vstd::utf8::decode_utf8(bytes@),
{
    String::from_utf8(bytes).ok()
}

/// What a finished traversal of the backend output guarantees: `r` counts the
/// change events handed to the visitor `cb`. They are the first `r.unwrap()`
/// events of `emitted`, in order; every answer of the visitor but the last
/// was `true`; and the traversal stopped before the end of `emitted` only
/// because the visitor answered `false`.
pub open spec fn visit_outcome<F: Fn(FileChange) -> bool>(
    cb: F,
    emitted: Seq<ChangeView>,
    r: Result<usize, Error>,
) -> bool {
    &&& r is Ok
    &&& r matches Ok(n) ==> {
        &&& n <= emitted.len()
        &&& forall|i: int|
            #![trigger emitted[i]]
            0 <= i < n ==> exists|c: FileChange, b: bool|
                c@ == emitted[i] && #[trigger] call_ensures(cb, (c,), b) && (i < n - 1 ==> b)
        &&& n < emitted.len() ==> 1 <= n && exists|c: FileChange|
            c@ == emitted[n - 1] && call_ensures(cb, (c,), false)
    }
}

/// Walks the raw output of the backend's diff-summary query one line at a
/// time, classifies each line, and hands each resulting change event to
/// `cb`, stopping early as soon as `cb` answers `false`.
///
/// `success` is whether the backend exited successfully: a failed run yields
/// `InvocationFailure` and output that is not valid text `DecodingFailure`,
/// before any line is classified. On success the result counts the events
/// delivered to `cb`.
#[verifier::loop_isolation(false)]
pub fn visit_changes<F: Fn(FileChange) -> bool>(success: bool, stdout: Vec<u8>, cb: F) -> (r:
    Result<usize, Error>)
    requires
        forall|c: FileChange| call_requires(cb, (c,)),
    ensures
        !success ==> r == Err::<usize, Error>(Error::InvocationFailure),
        success && !vstd::utf8::valid_utf8(stdout@) ==> r == Err::<usize, Error>(
            Error::DecodingFailure,
        ),
        success && vstd::utf8::valid_utf8(stdout@) ==> visit_outcome(
            cb,
            changes_of_output(vstd::utf8::decode_utf8(stdout@)),
            r,
        ),
{
    if !success {
        return Err(Error::InvocationFailure);
    }
    let text = match decode_output(stdout) {
        Some(t) => t,
        None => {
            return Err(Error::DecodingFailure);
        },
    };
    let s = text.as_str();
    let ghost full: Seq<char> = s@;
    let ghost emitted: Seq<ChangeView> = changes_of_output(full);
    let newline = "\n";
    let space = " ";
    proof {
        reveal_strlit("\n");
        reveal_strlit(" ");
        assert(newline@ =~= seq!['\n']);
        assert(space@ =~= seq![' ']);
    }
    let n = s.unicode_len();
    let mut p: usize = 0;
    let mut count: usize = 0;
    let ghost mut done: Seq<ChangeView> = Seq::empty();
    proof {
        assert(emitted =~= done + changes_from(full, 0));
        lemma_changes_from_len(full, 0);
    }
    while p < n
        invariant
            forall|c: FileChange| call_requires(cb, (c,)),
            newline@ == seq!['\n'],
            space@ == seq![' '],
            n == full.len(),
            s@ == full,
            emitted == changes_of_output(full),
            0 <= p <= n,
            emitted.len() <= n,
            count == done.len(),
            emitted == done + changes_from(full, p as int),
            forall|i: int|
                #![trigger done[i]]
                0 <= i < done.len() ==> exists|c: FileChange, b: bool|
                    c@ == done[i] && #[trigger] call_ensures(cb, (c,), b) && b,
        decreases n - p,
    {
        proof {
            lemma_find_from(full, seq!['\n'], p as int);
        }
        let (line_end, next_p) = match crate::find::find_str_from(s, newline, p) {
            Some(idx) => {
                if idx > p && s.get_char(idx - 1) == '\r' {
                    (idx - 1, idx + 1)
                } else {
                    (idx, idx + 1)
                }
            },
            None => (n, n),
        };
        let line = s.substring_char(p, line_end);
        proof {
            assert(line@ == line_at(full, p as int));
        }
        let ghost p_old = p as int;
        let ghost done_old = done;
        let line_len = line.unicode_len();
        let change = match crate::find::find_str(line, space) {
            None => None,
            Some(si) => {
                proof {
                    lemma_find_from(line@, space@, 0);
                }
                let code = line.substring_char(0, si);
                let path_part = line.substring_char(si + 1, line_len);
                status_to_change(code, path_part)
            },
        };
        match change {
            None => {
                proof {
                    assert(line_change(line_at(full, p_old)) is None);
                    assert(changes_from(full, p_old) == match crate::find::find_from(
                        full,
                        seq!['\n'],
                        p_old,
                    ) {
                        None => Seq::<ChangeView>::empty(),
                        Some(i) => Seq::<ChangeView>::empty() + changes_from(full, i + 1),
                    });
                }
            },
            Some(c) => {
                let ghost cv = c@;
                let ghost gchange = c;
                proof {
                    assert(line_change(line_at(full, p_old)) == Some(cv));
                    assert(changes_from(full, p_old) == match crate::find::find_from(
                        full,
                        seq!['\n'],
                        p_old,
                    ) {
                        None => seq![cv],
                        Some(i) => seq![cv] + changes_from(full, i + 1),
                    });
                    assert(emitted[done.len() as int] == cv);
                }
                let keep_going = cb(c);
                count = count + 1;
                proof {
                    assert(call_ensures(cb, (gchange,), keep_going));
                    done = done.push(cv);
                    assert(forall|i: int|
                        #![trigger done[i]]
                        0 <= i < done.len() - 1 ==> done[i] == done_old[i]);
                    assert(done[done.len() - 1] == cv);
                }
                if !keep_going {
                    proof {
                        assert(emitted[count - 1] == cv);
                        assert(call_ensures(cb, (gchange,), false));
                        assert forall|i: int| #![trigger emitted[i]] 0 <= i < count implies exists|
                            c2: FileChange,
                            b2: bool,
                        |
                            c2@ == emitted[i] && #[trigger] call_ensures(cb, (c2,), b2) && (i
                                < count - 1 ==> b2) by {
                            if i < count - 1 {
                                assert(emitted[i] == done_old[i]);
                                assert(exists|c2: FileChange, b2: bool|
                                    c2@ == done_old[i] && #[trigger] call_ensures(cb, (c2,), b2)
                                        && b2);
                            } else {
                                assert(gchange@ == emitted[i] && call_ensures(
                                    cb,
                                    (gchange,),
                                    false,
                                ) && (i < count - 1 ==> false));
                            }
                        }
                        assert(count <= emitted.len());
                        assert(visit_outcome(cb, emitted, Ok::<usize, Error>(count)));
                    }
                    return Ok(count);
                }
            },
        }
        p = next_p;
        proof {
            if p as int >= full.len() {
                assert(changes_from(full, p as int) =~= Seq::<ChangeView>::empty());
            }
            assert(emitted =~= done + changes_from(full, p as int));
        }
    }
    proof {
        assert(changes_from(full, p as int) =~= Seq::<ChangeView>::empty());
        assert(emitted =~= done);
        assert forall|i: int| #![trigger emitted[i]] 0 <= i < count implies exists|
            c2: FileChange,
            b2: bool,
        |
            c2@ == emitted[i] && #[trigger] call_ensures(cb, (c2,), b2) && (i < count - 1
                ==> b2) by {
            assert(emitted[i] == done[i]);
            assert(exists|c2: FileChange, b2: bool|
                c2@ == done[i] && #[trigger] call_ensures(cb, (c2,), b2) && b2);
        }
        assert(visit_outcome(cb, emitted, Ok::<usize, Error>(count)));
    }
    Ok(count)
}

/// The current revision's identity label, shared between one refreshing
/// writer and arbitrarily many concurrent readers. The whole immutable string
/// is replaced atomically; a reader always sees either the old or the new
/// value in full.
#[verifier::external_body]
pub struct HeadSnapshot {
    handle: Arc<ArcSwap<Box<str>>>,
}

/// The label a snapshot currently holds.
pub uninterp spec fn snapshot_label(s: HeadSnapshot) -> Seq<char>;

impl HeadSnapshot {
    /// Relies on arc_swap::ArcSwap::from_pointee: the new storage holds
    /// exactly the value it was constructed from.
    #[verifier::external_body]
    pub fn new(label: String) -> (s: HeadSnapshot)
        ensures
            snapshot_label(s) == label@,
    {
        HeadSnapshot { handle: Arc::new(ArcSwap::from_pointee(label.into_boxed_str())) }
    }

    /// Relies on arc_swap::ArcSwapAny::load_full: it returns the currently
    /// installed value, atomically and without blocking the caller.
    #[verifier::external_body]
    pub fn load(&self) -> (r: String)
        ensures
            r@ == snapshot_label(*self),
    {
        self.handle.load_full().to_string()
    }

    /// Relies on arc_swap::ArcSwapAny::store: it atomically replaces the
    /// installed value, and further loads yield the new one.
    #[verifier::external_body]
    pub fn store(&mut self, label: String)
        ensures
            snapshot_label(*final(self)) == label@,
    {
        self.handle.store(Arc::new(label.into_boxed_str()));
    }
}

/// Builds a fresh head snapshot from one backend invocation's outcome:
/// `success` is whether the backend exited successfully and `stdout` its raw
/// output, the identity label. A failed run yields `InvocationFailure` and
/// output that is not valid text `DecodingFailure`; otherwise the decoded
/// label is installed in a fresh snapshot.
pub fn head_snapshot_from_output(success: bool, stdout: Vec<u8>) -> (r: Result<
    HeadSnapshot,
    Error,
>)
    ensures
        !success ==> r == Err::<HeadSnapshot, Error>(Error::InvocationFailure),
        success && !vstd::utf8::valid_utf8(stdout@) ==> r == Err::<HeadSnapshot, Error>(
            Error::DecodingFailure,
        ),
        success && vstd::utf8::valid_utf8(stdout@) ==> (r matches Ok(s) && snapshot_label(s)
            == vstd::utf8::decode_utf8(stdout@)),
{
    if !success {
        return Err(Error::InvocationFailure);
    }
    match decode_output(stdout) {
        None => Err(Error::DecodingFailure),
        Some(label) => Ok(HeadSnapshot::new(label)),
    }
}

/// One refresh outcome applied to the previously stored snapshot: a
/// successful fetch installs the fresh snapshot, while a failed fetch keeps
/// the previous one in place, stale but valid.
pub fn apply_refresh(current: Option<HeadSnapshot>, fetched: Result<HeadSnapshot, Error>) -> (r:
    Option<HeadSnapshot>)
    ensures
        fetched matches Ok(s) ==> r == Some(s),
        fetched is Err ==> r == current,
{
    match fetched {
        Ok(s) => Some(s),
        Err(_) => current,
    }
}

/// A path that is not a rename degrades deterministically to status-code
/// classification, whatever made the rename grammar fail.
pub proof fn lemma_no_rename_falls_back(status: Seq<char>, path: Seq<char>)
    requires
        rename_of(path) is None,
    ensures
        classify_line_spec(status, path) == code_change(status, path),
{
}

/// A path missing one of the rename tokens in order — the opening brace, the
/// separator, or the closing brace — is never taken for a rename.
pub proof fn lemma_missing_token_no_rename(path: Seq<char>)
    ensures
        !path.contains('{') ==> rename_of(path) is None,
        (forall|q: int| !crate::find::matches_at(path, arrow_token(), q)) ==> rename_of(
            path,
        ) is None,
        !path.contains('}') ==> rename_of(path) is None,
{
    lemma_find_from(path, seq!['{'], 0);
    match find(path, seq!['{']) {
        None => {},
        Some(i) => {
            assert(path[i] == '{') by {
                assert(path.subrange(i, i + 1)[0] == path[i]);
            }
            let rest = path.subrange(i + 1, path.len() as int);
            lemma_find_from(rest, arrow_token(), 0);
            match find(rest, arrow_token()) {
                None => {},
                Some(j) => {
                    assert(crate::find::matches_at(path, arrow_token(), i + 1 + j)) by {
                        assert(path.subrange(i + 1 + j, i + 1 + j + 4) =~= rest.subrange(
                            j,
                            j + 4,
                        ));
                    }
                    let tail = rest.subrange(j + 4, rest.len() as int);
                    lemma_find_from(tail, seq!['}'], 0);
                    match find(tail, seq!['}']) {
                        None => {},
                        Some(k) => {
                            assert(path.contains('}')) by {
                                assert(tail.subrange(k, k + 1)[0] == tail[k]);
                                assert(path[i + 1 + j + 4 + k] == '}');
                            }
                        },
                    }
                },
            }
        },
    }
}

/// A well-formed rename infix always wins: whatever the status code, a path
/// of the shape `prefix{from => to}suffix` — where the tokens found are the
/// first ones, i.e. the prefix holds no `{`, the separator does not occur
/// earlier inside `from`, and `to` holds no `}` — classifies as a rename of
/// `prefix + from + suffix` to `prefix + to + suffix`.
pub proof fn lemma_rename_infix_wins(
    status: Seq<char>,
    prefix: Seq<char>,
    from: Seq<char>,
    to: Seq<char>,
    suffix: Seq<char>,
)
    requires
        !prefix.contains('{'),
        forall|q: int|
            0 <= q && q + 4 <= from.len() ==> #[trigger] from.subrange(q, q + 4) != arrow_token(),
        from.len() >= 3 ==> from.subrange(from.len() - 3, from.len() as int) != seq![' ', '=', '>'],
        !to.contains('}'),
    ensures
        classify_line_spec(
            status,
            prefix + seq!['{'] + from + arrow_token() + to + seq!['}'] + suffix,
        ) == Some(
            ChangeView::Renamed { from_path: prefix + from + suffix, to_path: prefix + to + suffix },
        ),
{
    let path = prefix + seq!['{'] + from + arrow_token() + to + seq!['}'] + suffix;
    let arrow = arrow_token();
    let pl = prefix.len() as int;
    let fl = from.len() as int;
    let tl = to.len() as int;
    assert(path.subrange(pl, pl + 1) =~= seq!['{']);
    assert forall|j: int| 0 <= j < pl implies !crate::find::matches_at(path, seq!['{'], j) by {
        if crate::find::matches_at(path, seq!['{'], j) {
            assert(path.subrange(j, j + 1)[0] == path[j]);
            assert(prefix[j] == '{');
            assert(prefix.contains('{'));
        }
    }
    crate::find::lemma_find_is(path, seq!['{'], pl);
    let rest = path.subrange(pl + 1, path.len() as int);
    assert(rest =~= from + arrow + to + seq!['}'] + suffix);
    assert(rest.subrange(fl, fl + 4) =~= arrow);
    assert forall|q: int| 0 <= q < fl implies !crate::find::matches_at(rest, arrow, q) by {
        if crate::find::matches_at(rest, arrow, q) {
            assert(rest.subrange(q, q + 4)[0] == rest[q]);
            assert(rest.subrange(q, q + 4)[1] == rest[q + 1]);
            assert(rest.subrange(q, q + 4)[2] == rest[q + 2]);
            assert(rest.subrange(q, q + 4)[3] == rest[q + 3]);
            if q + 4 <= fl {
                assert(rest.subrange(q, q + 4) =~= from.subrange(q, q + 4));
            } else if q == fl - 1 {
                assert(rest[q + 1] == arrow[0]);
            } else if q == fl - 2 {
                assert(rest[q + 2] == arrow[0]);
            } else {
                assert(q == fl - 3);
                assert(from.subrange(fl - 3, fl) =~= seq![' ', '=', '>']);
            }
        }
    }
    crate::find::lemma_find_is(rest, arrow, fl);
    let tail = rest.subrange(fl + 4, rest.len() as int);
    assert(tail =~= to + seq!['}'] + suffix);
    assert(tail.subrange(tl, tl + 1) =~= seq!['}']);
    assert forall|q: int| 0 <= q < tl implies !crate::find::matches_at(tail, seq!['}'], q) by {
        if crate::find::matches_at(tail, seq!['}'], q) {
            assert(tail.subrange(q, q + 1)[0] == tail[q]);
            assert(to[q] == '}');
            assert(to.contains('}'));
        }
    }
    crate::find::lemma_find_is(tail, seq!['}'], tl);
    assert(path.subrange(0, pl) =~= prefix);
    assert(rest.subrange(0, fl) =~= from);
    assert(tail.subrange(0, tl) =~= to);
    assert(tail.subrange(tl + 1, tail.len() as int) =~= suffix);
    assert(prefix + from + suffix =~= path.subrange(0, pl) + rest.subrange(0, fl) + tail.subrange(
        tl + 1,
        tail.len() as int,
    ));
    assert(prefix + to + suffix =~= path.subrange(0, pl) + tail.subrange(0, tl) + tail.subrange(
        tl + 1,
        tail.len() as int,
    ));
}

/// Early stop: a visitor that always answers `false` is handed at most one
/// change event, so no line after the first change is classified for it.
pub proof fn lemma_early_stop<F: Fn(FileChange) -> bool>(
    cb: F,
    emitted: Seq<ChangeView>,
    r: Result<usize, Error>,
)
    requires
        forall|c: FileChange, b: bool| #[trigger] call_ensures(cb, (c,), b) ==> !b,
        visit_outcome(cb, emitted, r),
    ensures
        r matches Ok(n) && n <= 1,
{
    match r {
        Ok(n) => {
            if n > 1 {
                let e0 = emitted[0];
                assert(exists|c: FileChange, b: bool|
                    c@ == e0 && #[trigger] call_ensures(cb, (c,), b) && (0 < n - 1 ==> b));
            }
        },
        Err(_) => {},
    }
}

} // verus!



