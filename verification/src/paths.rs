//! Relative paths as they travel on the wire: `/`-separated, never absolute,
//! never climbing out of the directory they are resolved against.

use crate::text::{chars_of, push_char, push_chars};
use vstd::prelude::*;
use vstd::string::*;

verus! {

broadcast use vstd::string::group_string_axioms;

/// The characters that end a path component. The backslash counts: senders
/// replace it before a path goes on the wire, so it never belongs to a name.
pub open spec fn is_separator(c: char) -> bool {
    c == '/' || c == '\\'
}

/// `path` with every backslash replaced by a slash.
pub open spec fn normalized(path: Seq<char>) -> Seq<char> {
    path.map_values(
        |c: char|
            if c == '\\' {
                '/'
            } else {
                c
            },
    )
}

/// The pieces between the separators of `path`, empty ones included: one
/// more piece than there are separators.
pub open spec fn split(path: Seq<char>) -> Seq<Seq<char>>
    decreases path.len(),
{
    if path.len() == 0 {
        seq![Seq::<char>::empty()]
    } else {
        let before = split(path.drop_last());
        if is_separator(path.last()) {
            before.push(Seq::<char>::empty())
        } else {
            before.update(before.len() - 1, before.last().push(path.last()))
        }
    }
}

/// The component that names the parent directory.
pub open spec fn parent_piece() -> Seq<char> {
    seq!['.', '.']
}

/// The component that names the directory itself.
pub open spec fn current_piece() -> Seq<char> {
    seq!['.']
}

/// Whether a piece names an entry: not empty, not `.`, not `..`, and free of
/// separators.
pub open spec fn is_name(piece: Seq<char>) -> bool {
    &&& piece.len() > 0
    &&& piece != current_piece()
    &&& piece != parent_piece()
    &&& forall|k: int| 0 <= k < piece.len() ==> !is_separator(#[trigger] piece[k])
}

/// The test `is_name`, as a value.
pub open spec fn names() -> spec_fn(Seq<char>) -> bool {
    |piece: Seq<char>| is_name(piece)
}

/// Whether `path` holds a parent-directory component.
pub open spec fn climbs(path: Seq<char>) -> bool {
    split(path).contains(parent_piece())
}

/// Whether `path` starts at a root rather than at the base directory.
pub open spec fn is_rooted(path: Seq<char>) -> bool {
    path.len() > 0 && is_separator(path[0])
}

/// Whether `c` can name a drive.
pub open spec fn is_drive_letter(c: char) -> bool {
    ('a' <= c && c <= 'z') || ('A' <= c && c <= 'Z')
}

/// Whether a piece begins with a drive prefix, a letter and a colon. Where
/// drives exist, such a piece leads away from the directory it is resolved
/// against.
pub open spec fn has_drive_prefix(piece: Seq<char>) -> bool {
    piece.len() >= 2 && is_drive_letter(piece[0]) && piece[1] == ':'
}

/// The pieces joined by single slashes.
pub open spec fn join(pieces: Seq<Seq<char>>) -> Seq<char>
    decreases pieces.len(),
{
    if pieces.len() == 0 {
        Seq::<char>::empty()
    } else if pieces.len() == 1 {
        pieces[0]
    } else {
        join(pieces.drop_last()).push('/') + pieces.last()
    }
}

/// The components of `path` that name entries, in order.
pub open spec fn name_pieces(path: Seq<char>) -> Seq<Seq<char>> {
    split(path).filter(names())
}

/// Whether the first entry that `path` names begins with a drive prefix.
pub open spec fn on_drive(path: Seq<char>) -> bool {
    name_pieces(path).len() > 0 && has_drive_prefix(name_pieces(path)[0])
}

/// A path the receiver may resolve under its base directory: not rooted,
/// without a parent-directory component, and not on a drive of its own.
pub open spec fn is_safe(path: Seq<char>) -> bool {
    !is_rooted(path) && !climbs(path) && !on_drive(path)
}

/// `path` reduced to the entries it names: empty pieces and `.` dropped, the
/// rest joined by single slashes.
pub open spec fn resolved(path: Seq<char>) -> Seq<char> {
    join(name_pieces(path))
}

/// A relative path made of entry names only: resolving it against a
/// directory cannot leave that directory.
pub open spec fn stays_inside(path: Seq<char>) -> bool {
    &&& forall|k: int| 0 <= k < split(path).len() ==> is_name(#[trigger] split(path)[k])
    &&& !has_drive_prefix(split(path)[0])
}

/// `split` always yields at least one piece, and no piece holds a separator.
pub proof fn lemma_split_pieces(path: Seq<char>)
    ensures
        split(path).len() >= 1,
        forall|k: int, m: int|
            0 <= k < split(path).len() && 0 <= m < split(path)[k].len() ==> !is_separator(
                #[trigger] split(path)[k][m],
            ),
    decreases path.len(),
{
    if path.len() > 0 {
        lemma_split_pieces(path.drop_last());
    }
}

/// Appending separator-free text extends the last piece and nothing else.
pub proof fn lemma_split_append(path: Seq<char>, text: Seq<char>)
    requires
        forall|k: int| 0 <= k < text.len() ==> !is_separator(#[trigger] text[k]),
    ensures
        split(path).len() >= 1,
        split(path + text) == split(path).update(split(path).len() - 1, split(path).last() + text),
    decreases text.len(),
{
    lemma_split_pieces(path);
    let pieces = split(path);
    if text.len() == 0 {
        assert(path + text =~= path);
        assert(pieces.last() + text =~= pieces.last());
        assert(pieces.update(pieces.len() - 1, pieces.last()) =~= pieces);
    } else {
        let shorter = text.drop_last();
        lemma_split_append(path, shorter);
        assert((path + text).drop_last() =~= path + shorter);
        assert((path + text).last() == text.last());
        assert(!is_separator(text[text.len() - 1]));
        let mid = pieces.update(pieces.len() - 1, pieces.last() + shorter);
        assert(mid.last().push(text.last()) =~= pieces.last() + text);
        assert(mid.update(mid.len() - 1, pieces.last() + text) =~= pieces.update(
            pieces.len() - 1,
            pieces.last() + text,
        ));
    }
}

/// Splitting what was joined gives the pieces back, provided there is at
/// least one and none holds a separator.
pub proof fn lemma_split_join(pieces: Seq<Seq<char>>)
    requires
        pieces.len() >= 1,
        forall|k: int, m: int|
            0 <= k < pieces.len() && 0 <= m < pieces[k].len() ==> !is_separator(
                #[trigger] pieces[k][m],
            ),
    ensures
        split(join(pieces)) == pieces,
    decreases pieces.len(),
{
    if pieces.len() == 1 {
        let only = pieces[0];
        assert forall|m: int| 0 <= m < only.len() implies !is_separator(#[trigger] only[m]) by {
            assert(!is_separator(pieces[0][m]));
        }
        lemma_split_append(Seq::<char>::empty(), only);
        assert(Seq::<char>::empty() + only =~= only);
        assert(split(Seq::<char>::empty()) =~= seq![Seq::<char>::empty()]);
        assert(Seq::<char>::empty() + only =~= only);
        assert(seq![Seq::<char>::empty()].update(0, only) =~= pieces);
    } else {
        let rest = pieces.drop_last();
        let last = pieces.last();
        assert forall|k: int, m: int| 0 <= k < rest.len() && 0 <= m < rest[k].len() implies !is_separator(
            #[trigger] rest[k][m],
        ) by {
            assert(rest[k] == pieces[k]);
            assert(!is_separator(pieces[k][m]));
        }
        lemma_split_join(rest);
        let head = join(rest).push('/');
        assert(head.drop_last() =~= join(rest));
        assert(split(head) == rest.push(Seq::<char>::empty()));
        assert forall|m: int| 0 <= m < last.len() implies !is_separator(#[trigger] last[m]) by {
            assert(!is_separator(pieces[pieces.len() - 1][m]));
        }
        lemma_split_append(head, last);
        assert(Seq::<char>::empty() + last =~= last);
        assert(rest.push(Seq::<char>::empty()).update(rest.len() as int, last) =~= pieces);
    }
}

/// What `resolved` yields names entries only, whenever it names any: no
/// component of it is empty, `.` or `..`, and it does not start at a root;
/// nor on a drive, unless the path itself did.
pub proof fn lemma_resolved_stays_inside(path: Seq<char>)
    requires
        name_pieces(path).len() > 0,
    ensures
        split(resolved(path)) == name_pieces(path),
        forall|k: int|
            0 <= k < split(resolved(path)).len() ==> is_name(#[trigger] split(resolved(path))[k]),
        !on_drive(path) ==> stays_inside(resolved(path)),
        !is_rooted(resolved(path)),
        !climbs(resolved(path)),
{
    let pieces = name_pieces(path);
    assert forall|k: int| 0 <= k < pieces.len() implies is_name(#[trigger] pieces[k]) by {
        split(path).lemma_filter_pred(names(), k);
    }
    assert forall|k: int, m: int| 0 <= k < pieces.len() && 0 <= m < pieces[k].len() implies !is_separator(
        #[trigger] pieces[k][m],
    ) by {
        assert(is_name(pieces[k]));
    }
    lemma_split_join(pieces);
    if is_rooted(resolved(path)) {
        lemma_rooted_first_piece(resolved(path));
        assert(is_name(pieces[0]));
    }
    if climbs(resolved(path)) {
        let k = choose|k: int| 0 <= k < pieces.len() && pieces[k] == parent_piece();
        assert(is_name(pieces[k]));
    }
}

/// A rooted path starts with an empty piece.
pub proof fn lemma_rooted_first_piece(path: Seq<char>)
    requires
        is_rooted(path),
    ensures
        split(path).len() >= 1,
        split(path)[0].len() == 0,
    decreases path.len(),
{
    lemma_split_pieces(path);
    if path.len() == 1 {
        assert(path.drop_last() =~= Seq::<char>::empty());
        assert(split(path.drop_last()) =~= seq![Seq::<char>::empty()]);
    } else {
        let shorter = path.drop_last();
        assert(shorter[0] == path[0]);
        lemma_rooted_first_piece(shorter);
        lemma_split_pieces(shorter);
        assert(split(shorter).len() >= 2) by {
            lemma_rooted_two_pieces(shorter);
        }
    }
}

/// A rooted path has at least two pieces.
pub proof fn lemma_rooted_two_pieces(path: Seq<char>)
    requires
        is_rooted(path),
    ensures
        split(path).len() >= 2,
    decreases path.len(),
{
    lemma_split_pieces(path.drop_last());
    if path.len() == 1 {
        assert(path.drop_last() =~= Seq::<char>::empty());
        assert(path.last() == path[0]);
    } else {
        assert(path.drop_last()[0] == path[0]);
        lemma_rooted_two_pieces(path.drop_last());
    }
}

/// The suffix that marks a staged file.
pub open spec fn tmp_suffix() -> Seq<char> {
    seq!['.', 't', 'm', 'p']
}

/// The staged name of `target`: the suffix goes on the final component.
pub open spec fn staged(target: Seq<char>) -> Seq<char> {
    target + tmp_suffix()
}

/// Staging changes the last component only, and a path of entry names stays one.
pub proof fn lemma_staged_stays_inside(target: Seq<char>)
    requires
        stays_inside(target),
    ensures
        split(target).len() >= 1,
        split(staged(target)) == split(target).update(
            split(target).len() - 1,
            split(target).last() + tmp_suffix(),
        ),
        stays_inside(staged(target)),
{
    lemma_split_append(target, tmp_suffix());
    let pieces = split(target);
    let last = pieces.last() + tmp_suffix();
    assert(!has_drive_prefix(last) || pieces.len() > 1) by {
        if pieces.len() == 1 {
            if pieces[0].len() >= 2 {
                assert(last[0] == pieces[0][0]);
                assert(last[1] == pieces[0][1]);
            } else {
                assert(last[1] == tmp_suffix()[0]);
            }
        }
    }
    assert(is_name(pieces[pieces.len() - 1]));
    assert(last[last.len() - 1] == 'p');
    assert(last.len() >= 5);
    assert(is_name(last)) by {
        assert forall|k: int| 0 <= k < last.len() implies !is_separator(#[trigger] last[k]) by {
            if k < pieces.last().len() {
                assert(last[k] == pieces.last()[k]);
            } else {
                assert(last[k] == tmp_suffix()[k - pieces.last().len()]);
            }
        }
    }
    assert forall|k: int| 0 <= k < split(staged(target)).len() implies is_name(
        #[trigger] split(staged(target))[k],
    ) by {
        if k < pieces.len() - 1 {
            assert(is_name(pieces[k]));
        }
    }
}

/// Whether `c` ends a path component.
pub fn ends_component(c: char) -> (b: bool)
    ensures
        b == is_separator(c),
{
    c == '/' || c == '\\'
}

/// Replaces every backslash by a slash, so that a path reads the same on
/// every host.
pub fn normalize_separators(path: &str) -> (out: String)
    ensures
        out@ == normalized(path@),
{
    let mut out = String::new();
    for c in it: path.chars()
        invariant
            it.seq() == path@,
            out@ == normalized(path@.take(it.index() as int)),
    {
        assert(path@.take(it.index() + 1) =~= path@.take(it.index() as int).push(c));
        assert(normalized(path@.take(it.index() as int).push(c)) =~= normalized(
            path@.take(it.index() as int),
        ).push(
            if c == '\\' {
                '/'
            } else {
                c
            },
        ));
        if c == '\\' {
            push_char(&mut out, '/');
        } else {
            push_char(&mut out, c);
        }
    }
    assert(path@.take(path@.len() as int) =~= path@);
    out
}

/// Whether `chars[from..to]` begins with a drive prefix.
fn is_drive_piece(chars: &Vec<char>, from: usize, to: usize) -> (b: bool)
    requires
        from <= to <= chars@.len(),
    ensures
        b == has_drive_prefix(chars@.subrange(from as int, to as int)),
{
    let ghost piece = chars@.subrange(from as int, to as int);
    if to - from < 2 {
        return false;
    }
    assert(piece[0] == chars@[from as int]);
    assert(piece[1] == chars@[from + 1]);
    let c = chars[from];
    (('a' <= c && c <= 'z') || ('A' <= c && c <= 'Z')) && chars[from + 1] == ':'
}

/// Whether `chars[from..to]` is the parent-directory component.
fn is_parent_piece(chars: &Vec<char>, from: usize, to: usize) -> (b: bool)
    requires
        from <= to <= chars@.len(),
    ensures
        b == (chars@.subrange(from as int, to as int) == parent_piece()),
{
    let ghost piece = chars@.subrange(from as int, to as int);
    if to - from == 2 {
        assert(piece[0] == chars@[from as int]);
        assert(piece[1] == chars@[from + 1]);
        let b = chars[from] == '.' && chars[from + 1] == '.';
        if b {
            assert(piece =~= parent_piece());
        } else {
            assert(parent_piece()[0] == '.' && parent_piece()[1] == '.');
        }
        b
    } else {
        assert(parent_piece().len() == 2);
        false
    }
}

/// Whether the separator-free run `chars[from..to]` names an entry.
fn is_name_piece(chars: &Vec<char>, from: usize, to: usize) -> (b: bool)
    requires
        from <= to <= chars@.len(),
        forall|k: int| from <= k < to ==> !is_separator(#[trigger] chars@[k]),
    ensures
        b == is_name(chars@.subrange(from as int, to as int)),
{
    let ghost piece = chars@.subrange(from as int, to as int);
    assert forall|k: int| 0 <= k < piece.len() implies !is_separator(#[trigger] piece[k]) by {
        assert(piece[k] == chars@[from + k]);
    }
    if to == from {
        return false;
    }
    assert(piece[0] == chars@[from as int]);
    if to - from == 1 && chars[from] == '.' {
        assert(piece =~= current_piece());
        return false;
    }
    if is_parent_piece(chars, from, to) {
        return false;
    }
    assert(piece != current_piece()) by {
        if piece == current_piece() {
            assert(current_piece().len() == 1);
            assert(current_piece()[0] == '.');
        }
    }
    true
}

/// Reduces a wire path to the entries it names, for resolving under a base
/// directory. `None` exactly when the path is rooted, holds a `..`
/// component or starts on a drive; otherwise the named components joined
/// by single slashes, which is empty when the path names nothing.
pub fn safe_relative(path: &str) -> (r: Option<String>)
    ensures
        r is Some <==> is_safe(path@),
        r is Some ==> r->Some_0@ == resolved(path@),
{
    let chars = chars_of(path);
    let n: usize = chars.len();
    if n > 0 && ends_component(chars[0]) {
        return None;
    }
    let mut out = String::new();
    let mut wrote = false;
    let mut climbing = false;
    let mut drive = false;
    let mut start: usize = 0;
    let mut i: usize = 0;
    let ghost mut closed: Seq<Seq<char>> = Seq::empty();
    proof {
        assert(path@.take(0) =~= Seq::<char>::empty());
        assert(path@.subrange(0, 0) =~= Seq::<char>::empty());
        assert(split(path@.take(0)) =~= closed.push(path@.subrange(0, 0)));
        reveal(Seq::filter);
        assert(closed.filter(names()) =~= Seq::<Seq<char>>::empty());
    }
    let mut finished = false;
    while !finished
        invariant
            chars@ == path@,
            n == chars@.len(),
            start <= i <= n,
            !finished ==> split(path@.take(i as int)) == closed.push(
                path@.subrange(start as int, i as int),
            ),
            !finished ==> forall|k: int| start <= k < i ==> !is_separator(#[trigger] chars@[k]),
            finished ==> split(path@) == closed,
            climbing == closed.contains(parent_piece()),
            out@ == join(closed.filter(names())),
            wrote == (closed.filter(names()).len() > 0),
            drive == (closed.filter(names()).len() > 0 && has_drive_prefix(
                closed.filter(names())[0],
            )),
        decreases n - i, if finished { 0int } else { 1int },
    {
        let at_end = i == n;
        if at_end || ends_component(chars[i]) {
            let ghost piece = path@.subrange(start as int, i as int);
            if is_parent_piece(&chars, start, i) {
                climbing = true;
            }
            if is_name_piece(&chars, start, i) {
                if wrote {
                    push_char(&mut out, '/');
                } else {
                    drive = is_drive_piece(&chars, start, i);
                }
                push_chars(&mut out, &chars, start, i);
                wrote = true;
            }
            proof {
                let kept = closed.filter(names());
                closed.lemma_filter_push(piece, names());
                assert(closed.push(piece).contains(parent_piece()) == (closed.contains(
                    parent_piece(),
                ) || piece == parent_piece())) by {
                    if piece == parent_piece() {
                        assert(closed.push(piece)[closed.len() as int] == piece);
                    }
                    if closed.contains(parent_piece()) {
                        let k = choose|k: int| 0 <= k < closed.len() && closed[k] == parent_piece();
                        assert(closed.push(piece)[k] == parent_piece());
                    }
                }
                if is_name(piece) {
                    assert(kept.push(piece).drop_last() =~= kept);
                    assert(kept.push(piece)[0] == if kept.len() == 0 {
                        piece
                    } else {
                        kept[0]
                    });
                    if kept.len() == 0 {
                        assert(out@ =~= piece);
                    }
                }
                if at_end {
                    assert(path@.take(n as int) =~= path@);
                } else {
                    assert(path@.take(i + 1).drop_last() =~= path@.take(i as int));
                    assert(path@.subrange(i + 1, i + 1) =~= Seq::<char>::empty());
                }
                closed = closed.push(piece);
            }
            if at_end {
                finished = true;
            } else {
                start = i + 1;
            }
        } else {
            proof {
                assert(path@.take(i + 1).drop_last() =~= path@.take(i as int));
                assert(path@.subrange(start as int, i as int).push(path@[i as int]) =~= path@.subrange(
                    start as int,
                    i + 1,
                ));
                assert(closed.push(path@.subrange(start as int, i as int)).update(
                    closed.len() as int,
                    path@.subrange(start as int, i + 1),
                ) =~= closed.push(path@.subrange(start as int, i + 1)));
            }
        }
        if !at_end {
            i += 1;
        }
    }
    if climbing || drive {
        None
    } else {
        Some(out)
    }
}

/// The staged name of `target`: `target` followed by `.tmp`.
pub fn staged_name(target: &str) -> (out: String)
    ensures
        out@ == staged(target@),
{
    let mut out = String::from_str(target);
    push_char(&mut out, '.');
    push_char(&mut out, 't');
    push_char(&mut out, 'm');
    push_char(&mut out, 'p');
    assert(out@ =~= staged(target@));
    out
}

} // verus!
