//! The tokenizer: from one pipeline stage to the name of the command it runs.

use crate::counts::{is_member, members};
use crate::text::{byte_is_space, find_byte, has_byte, is_space, position, same_bytes};
use crate::text::lemma_position;
use ahash::AHashSet;
use vstd::prelude::*;

verus! {

/// Number of bytes before the first whitespace byte of `s`.
pub open spec fn word_len(s: Seq<u8>) -> nat
    decreases s.len(),
{
    if s.len() == 0 || is_space(s[0]) {
        0
    } else {
        1 + word_len(s.drop_first())
    }
}

/// `word_len` counts the bytes in front of the first whitespace byte.
pub proof fn lemma_word_len(s: Seq<u8>)
    ensures
        word_len(s) <= s.len(),
        forall|j: int| 0 <= j < word_len(s) ==> !is_space(s[j]),
        word_len(s) < s.len() ==> is_space(s[word_len(s) as int]),
    decreases s.len(),
{
    if s.len() == 0 || is_space(s[0]) {
    } else {
        let t = s.drop_first();
        lemma_word_len(t);
        assert forall|j: int| 0 <= j < word_len(s) implies !is_space(s[j]) by {
            if j > 0 {
                assert(s[j] == t[j - 1]);
            }
        }
        if word_len(s) < s.len() {
            assert(s[word_len(s) as int] == t[word_len(t) as int]);
        }
    }
}

/// Any number with the properties of `word_len` is `word_len`.
pub proof fn lemma_word_len_is(s: Seq<u8>, n: int)
    requires
        0 <= n <= s.len(),
        forall|j: int| 0 <= j < n ==> !is_space(s[j]),
        n < s.len() ==> is_space(s[n]),
    ensures
        word_len(s) == n,
{
    lemma_word_len(s);
    let m = word_len(s) as int;
    if m < n {
        assert(is_space(s[m]));
    } else if n < m {
        assert(is_space(s[n]));
    }
}

/// The whitespace-separated words of `s`, in order. No word is empty.
pub open spec fn words(s: Seq<u8>) -> Seq<Seq<u8>>
    decreases s.len(),
{
    if s.len() == 0 {
        Seq::empty()
    } else if is_space(s[0]) {
        words(s.drop_first())
    } else {
        proof {
            lemma_word_len(s);
        }
        seq![s.take(word_len(s) as int)] + words(s.skip(word_len(s) as int))
    }
}

/// No word is empty, and none begins with whitespace.
pub proof fn lemma_words_nonempty(s: Seq<u8>)
    ensures
        forall|k: int|
            0 <= k < words(s).len() ==> (#[trigger] words(s)[k]).len() > 0 && !is_space(
                words(s)[k][0],
            ),
    decreases s.len(),
{
    if s.len() == 0 {
        assert(words(s).len() == 0);
    } else if is_space(s[0]) {
        lemma_words_nonempty(s.drop_first());
        assert(words(s) == words(s.drop_first()));
    } else {
        lemma_word_len(s);
        let w = s.take(word_len(s) as int);
        let rest = words(s.skip(word_len(s) as int));
        lemma_words_nonempty(s.skip(word_len(s) as int));
        assert(words(s) == seq![w] + rest);
        assert forall|k: int| 0 <= k < words(s).len() implies (#[trigger] words(s)[k]).len() > 0
            && !is_space(words(s)[k][0]) by {
            if k > 0 {
                assert(words(s)[k] == rest[k - 1]);
            } else {
                assert(words(s)[0] == w);
                assert(w[0] == s[0]);
            }
        }
    }
}

/// `w` without the bytes `b` that it begins with.
pub open spec fn strip_leading(w: Seq<u8>, b: u8) -> Seq<u8>
    decreases w.len(),
{
    if w.len() > 0 && w[0] == b {
        strip_leading(w.drop_first(), b)
    } else {
        w
    }
}

/// `w` without the bytes `b` that it ends with.
pub open spec fn strip_trailing(w: Seq<u8>, b: u8) -> Seq<u8>
    decreases w.len(),
{
    if w.len() > 0 && w.last() == b {
        strip_trailing(w.drop_last(), b)
    } else {
        w
    }
}

/// What follows the last `/` of `w`; all of `w` when it holds none.
pub open spec fn base_name(w: Seq<u8>) -> Seq<u8>
    decreases w.len(),
{
    if w.len() == 0 || w.last() == '/' as u8 {
        Seq::empty()
    } else {
        base_name(w.drop_last()).push(w.last())
    }
}

/// The command name that a word stands for: backslashes at either end are
/// dropped, then everything from the first backslash that is left, then
/// every directory in front of the name.
pub open spec fn cleaned(w: Seq<u8>) -> Seq<u8> {
    let bare = strip_trailing(strip_leading(w, '\\' as u8), '\\' as u8);
    base_name(bare.take(position(bare, '\\' as u8)))
}

/// What the tokenizer does with one word.
#[derive(Clone, Copy, Debug, PartialEq, Eq, Structural)]
pub enum Verdict {
    /// Not the command: look at the next word.
    Skip,
    /// The rest of the stage is a comment: there is no command.
    Stop,
    /// This word names the command.
    Take,
}

/// The verdict on a word. A word that begins with `-` is skipped, which
/// covers the end-of-options marker `--`; one that begins with `#` opens a
/// comment. The same two tests are made on the cleaned name. A name that is
/// empty, filtered, or an assignment (holds `=` and does not begin with `$`)
/// is skipped. Any other name is taken.
pub open spec fn verdict(w: Seq<u8>, filter: Set<Seq<u8>>) -> Verdict {
    let name = cleaned(w);
    if w.len() > 0 && w[0] == '#' as u8 {
        Verdict::Stop
    } else if w.len() > 0 && w[0] == '-' as u8 {
        Verdict::Skip
    } else if name.len() == 0 {
        Verdict::Skip
    } else if name[0] == '#' as u8 {
        Verdict::Stop
    } else if name[0] == '-' as u8 {
        Verdict::Skip
    } else if filter.contains(name) {
        Verdict::Skip
    } else if name[0] != '$' as u8 && has_byte(name, '=' as u8) {
        Verdict::Skip
    } else {
        Verdict::Take
    }
}

/// Index of the word that names the command: the first word that is taken,
/// provided that no word before it opens a comment.
pub open spec fn pick(ws: Seq<Seq<u8>>, filter: Set<Seq<u8>>) -> Option<int>
    decreases ws.len(),
{
    if ws.len() == 0 {
        None
    } else {
        match verdict(ws[0], filter) {
            Verdict::Stop => None,
            Verdict::Take => Some(0),
            Verdict::Skip => match pick(ws.drop_first(), filter) {
                Some(k) => Some(k + 1),
                None => None,
            },
        }
    }
}

/// The word that `pick` picks is taken, and every word before it is skipped.
pub proof fn lemma_pick(ws: Seq<Seq<u8>>, filter: Set<Seq<u8>>)
    ensures
        pick(ws, filter) is Some ==> 0 <= pick(ws, filter)->0 < ws.len(),
        pick(ws, filter) is Some ==> verdict(ws[pick(ws, filter)->0], filter) == Verdict::Take,
        pick(ws, filter) is Some ==> forall|j: int|
            0 <= j < pick(ws, filter)->0 ==> verdict(#[trigger] ws[j], filter) == Verdict::Skip,
    decreases ws.len(),
{
    if ws.len() > 0 && verdict(ws[0], filter) == Verdict::Skip {
        let rest = ws.drop_first();
        lemma_pick(rest, filter);
        if pick(ws, filter) is Some {
            let k = pick(rest, filter)->0;
            assert(ws[k + 1] == rest[k]);
            assert forall|j: int| 0 <= j < k + 1 implies verdict(#[trigger] ws[j], filter)
                == Verdict::Skip by {
                if j > 0 {
                    assert(ws[j] == rest[j - 1]);
                }
            }
        }
    }
}

/// Tools whose first argument is a subcommand.
pub open spec fn is_multiword_tool(name: Seq<u8>) -> bool {
    ||| name == seq!['g' as u8, 'i' as u8, 't' as u8]
    ||| name == seq!['c' as u8, 'a' as u8, 'r' as u8, 'g' as u8, 'o' as u8]
    ||| name == seq!['n' as u8, 'p' as u8, 'm' as u8]
    ||| name == seq!['y' as u8, 'a' as u8, 'r' as u8, 'n' as u8]
    ||| name == seq!['p' as u8, 'n' as u8, 'p' as u8, 'm' as u8]
    ||| name == seq!['d' as u8, 'o' as u8, 'c' as u8, 'k' as u8, 'e' as u8, 'r' as u8]
    ||| name == seq![
        'k' as u8,
        'u' as u8,
        'b' as u8,
        'e' as u8,
        'c' as u8,
        't' as u8,
        'l' as u8,
    ]
    ||| name == seq![
        's' as u8,
        'y' as u8,
        's' as u8,
        't' as u8,
        'e' as u8,
        'm' as u8,
        'c' as u8,
        't' as u8,
        'l' as u8,
    ]
    ||| name == seq!['a' as u8, 'p' as u8, 't' as u8]
    ||| name == seq!['d' as u8, 'n' as u8, 'f' as u8]
    ||| name == seq!['p' as u8, 'a' as u8, 'c' as u8, 'm' as u8, 'a' as u8, 'n' as u8]
    ||| name == seq!['b' as u8, 'r' as u8, 'e' as u8, 'w' as u8]
    ||| name == seq!['n' as u8, 'i' as u8, 'x' as u8]
    ||| name == seq!['r' as u8, 'u' as u8, 's' as u8, 't' as u8, 'u' as u8, 'p' as u8]
    ||| name == seq!['g' as u8, 'o' as u8]
    ||| name == seq!['p' as u8, 'i' as u8, 'p' as u8]
    ||| name == seq!['p' as u8, 'o' as u8, 'e' as u8, 't' as u8, 'r' as u8, 'y' as u8]
}

/// The aggregation key chosen from the words of a stage. With
/// `track_subcommands`, the name of a multi-word tool is joined by one space
/// to the word that follows it, unless that word begins with `-`.
pub open spec fn key_in(ws: Seq<Seq<u8>>, filter: Set<Seq<u8>>, track_subcommands: bool) -> Option<
    Seq<u8>,
> {
    match pick(ws, filter) {
        None => None,
        Some(k) => {
            let name = cleaned(ws[k]);
            if track_subcommands && is_multiword_tool(name) && k + 1 < ws.len() && ws[k + 1][0]
                != '-' as u8 {
                Some(name + seq![' ' as u8] + ws[k + 1])
            } else {
                Some(name)
            }
        },
    }
}

/// The aggregation key of one pipeline stage, if it runs a command.
pub open spec fn command_key(cmd: Seq<u8>, filter: Set<Seq<u8>>, track_subcommands: bool) -> Option<
    Seq<u8>,
> {
    key_in(words(cmd), filter, track_subcommands)
}

/// The canonical command name of one pipeline stage, if it runs a command.
pub open spec fn first_word(cmd: Seq<u8>, filter: Set<Seq<u8>>) -> Option<Seq<u8>> {
    command_key(cmd, filter, false)
}

/// A skipped word at the front does not change the key.
pub proof fn lemma_key_after_skip(
    w: Seq<u8>,
    rest: Seq<Seq<u8>>,
    filter: Set<Seq<u8>>,
    track_subcommands: bool,
)
    requires
        verdict(w, filter) == Verdict::Skip,
    ensures
        key_in(seq![w] + rest, filter, track_subcommands) == key_in(
            rest,
            filter,
            track_subcommands,
        ),
{
    let ws = seq![w] + rest;
    assert(ws.drop_first() =~= rest);
    assert(ws[0] == w);
    lemma_pick(rest, filter);
    if pick(rest, filter) is Some {
        let k = pick(rest, filter)->0;
        assert(ws[k + 1] == rest[k]);
        if k + 1 < rest.len() {
            assert(ws[k + 2] == rest[k + 1]);
        }
    }
}

/// A word that opens a comment leaves the stage without a key.
pub proof fn lemma_key_after_stop(
    w: Seq<u8>,
    rest: Seq<Seq<u8>>,
    filter: Set<Seq<u8>>,
    track_subcommands: bool,
)
    requires
        verdict(w, filter) == Verdict::Stop,
    ensures
        key_in(seq![w] + rest, filter, track_subcommands) is None,
{
    assert((seq![w] + rest)[0] == w);
}

/// The key when the first word is taken.
pub proof fn lemma_key_after_take(
    w: Seq<u8>,
    rest: Seq<Seq<u8>>,
    filter: Set<Seq<u8>>,
    track_subcommands: bool,
)
    requires
        verdict(w, filter) == Verdict::Take,
    ensures
        key_in(seq![w] + rest, filter, track_subcommands) == Some(
            if track_subcommands && is_multiword_tool(cleaned(w)) && rest.len() > 0 && rest[0][0]
                != '-' as u8 {
                cleaned(w) + seq![' ' as u8] + rest[0]
            } else {
                cleaned(w)
            },
        ),
{
    let ws = seq![w] + rest;
    assert(ws[0] == w);
    if rest.len() > 0 {
        assert(ws[1] == rest[0]);
    }
}

/// A range of byte indices, `start` included and `end` excluded.
#[derive(Clone, Copy, Debug)]
pub struct Span {
    pub start: usize,
    pub end: usize,
}

/// The bounds of the first word of `cmd` at or after `from`.
pub fn next_word(cmd: &[u8], from: usize) -> (r: Option<Span>)
    requires
        from <= cmd@.len(),
    ensures
        r is None ==> words(cmd@.skip(from as int)).len() == 0,
        r is Some ==> from <= r->0.start < r->0.end <= cmd@.len(),
        r is Some ==> words(cmd@.skip(from as int)) == seq![
            cmd@.subrange(r->0.start as int, r->0.end as int),
        ] + words(cmd@.skip(r->0.end as int)),
{
    let n = cmd.len();
    let mut a: usize = from;
    while a < n && byte_is_space(cmd[a])
        invariant
            from <= a <= n,
            n == cmd@.len(),
            words(cmd@.skip(from as int)) == words(cmd@.skip(a as int)),
        decreases n - a,
    {
        assert(cmd@.skip(a as int).drop_first() =~= cmd@.skip(a + 1));
        a += 1;
    }
    if a >= n {
        assert(cmd@.skip(a as int).len() == 0);
        return None;
    }
    let mut b: usize = a + 1;
    while b < n && !byte_is_space(cmd[b])
        invariant
            a < b <= n,
            n == cmd@.len(),
            forall|j: int| a <= j < b ==> !is_space(cmd@[j]),
        decreases n - b,
    {
        b += 1;
    }
    proof {
        let t = cmd@.skip(a as int);
        lemma_word_len_is(t, b - a);
        assert(t.take(b - a) =~= cmd@.subrange(a as int, b as int));
        assert(t.skip(b - a) =~= cmd@.skip(b as int));
    }
    Some(Span { start: a, end: b })
}

/// The command name that the word `w` stands for.
pub fn clean_word(w: &[u8]) -> (r: &[u8])
    ensures
        r@ == cleaned(w@),
{
    let n = w.len();
    let mut from: usize = 0;
    assert(w@.skip(0) =~= w@);
    while from < n && w[from] == '\\' as u8
        invariant
            from <= n,
            n == w@.len(),
            strip_leading(w@, '\\' as u8) == strip_leading(w@.skip(from as int), '\\' as u8),
        decreases n - from,
    {
        assert(w@.skip(from as int).drop_first() =~= w@.skip(from + 1));
        from += 1;
    }
    let mut to: usize = n;
    let ghost head = w@.skip(from as int);
    assert(head =~= w@.subrange(from as int, to as int));
    while to > from && w[to - 1] == '\\' as u8
        invariant
            from <= to <= n,
            n == w@.len(),
            strip_trailing(head, '\\' as u8) == strip_trailing(
                w@.subrange(from as int, to as int),
                '\\' as u8,
            ),
        decreases to,
    {
        assert(w@.subrange(from as int, to as int).drop_last() =~= w@.subrange(
            from as int,
            to - 1,
        ));
        to -= 1;
    }
    let bare = &w[from..to];
    assert(bare@ == strip_trailing(strip_leading(w@, '\\' as u8), '\\' as u8));
    let cut = match find_byte(bare, '\\' as u8) {
        Some(i) => i,
        None => bare.len(),
    };
    proof {
        lemma_position(bare@, '\\' as u8);
    }
    let first = &bare[0..cut];
    assert(first@ == bare@.take(position(bare@, '\\' as u8)));
    let m = first.len();
    let mut k: usize = m;
    assert(first@.take(k as int) =~= first@);
    assert(first@.skip(k as int) =~= Seq::<u8>::empty());
    while k > 0 && first[k - 1] != '/' as u8
        invariant
            k <= m,
            m == first@.len(),
            base_name(first@) == base_name(first@.take(k as int)) + first@.skip(k as int),
        decreases k,
    {
        proof {
            let t = first@.take(k as int);
            assert(t.drop_last() =~= first@.take(k - 1));
            assert(base_name(t) == base_name(first@.take(k - 1)).push(first@[k - 1]));
            assert(base_name(first@.take(k - 1)).push(first@[k - 1]) + first@.skip(k as int)
                =~= base_name(first@.take(k - 1)) + first@.skip(k - 1));
        }
        k -= 1;
    }
    proof {
        assert(base_name(first@.take(k as int)) =~= Seq::<u8>::empty());
        assert(first@.skip(k as int) =~= first@.subrange(k as int, m as int));
    }
    &first[k..m]
}

/// Whether `name` is a tool whose first argument is a subcommand.
pub fn is_subcommand_tool(name: &[u8]) -> (r: bool)
    ensures
        r == is_multiword_tool(name@),
{
    let git: [u8; 3] = ['g' as u8, 'i' as u8, 't' as u8];
    let cargo: [u8; 5] = ['c' as u8, 'a' as u8, 'r' as u8, 'g' as u8, 'o' as u8];
    let npm: [u8; 3] = ['n' as u8, 'p' as u8, 'm' as u8];
    let yarn: [u8; 4] = ['y' as u8, 'a' as u8, 'r' as u8, 'n' as u8];
    let pnpm: [u8; 4] = ['p' as u8, 'n' as u8, 'p' as u8, 'm' as u8];
    let docker: [u8; 6] = ['d' as u8, 'o' as u8, 'c' as u8, 'k' as u8, 'e' as u8, 'r' as u8];
    let kubectl: [u8; 7] = [
        'k' as u8,
        'u' as u8,
        'b' as u8,
        'e' as u8,
        'c' as u8,
        't' as u8,
        'l' as u8,
    ];
    let systemctl: [u8; 9] = [
        's' as u8,
        'y' as u8,
        's' as u8,
        't' as u8,
        'e' as u8,
        'm' as u8,
        'c' as u8,
        't' as u8,
        'l' as u8,
    ];
    let apt: [u8; 3] = ['a' as u8, 'p' as u8, 't' as u8];
    let dnf: [u8; 3] = ['d' as u8, 'n' as u8, 'f' as u8];
    let pacman: [u8; 6] = ['p' as u8, 'a' as u8, 'c' as u8, 'm' as u8, 'a' as u8, 'n' as u8];
    let brew: [u8; 4] = ['b' as u8, 'r' as u8, 'e' as u8, 'w' as u8];
    let nix: [u8; 3] = ['n' as u8, 'i' as u8, 'x' as u8];
    let rustup: [u8; 6] = ['r' as u8, 'u' as u8, 's' as u8, 't' as u8, 'u' as u8, 'p' as u8];
    let go: [u8; 2] = ['g' as u8, 'o' as u8];
    let pip: [u8; 3] = ['p' as u8, 'i' as u8, 'p' as u8];
    let poetry: [u8; 6] = ['p' as u8, 'o' as u8, 'e' as u8, 't' as u8, 'r' as u8, 'y' as u8];
    proof {
        assert(git@ =~= seq!['g' as u8, 'i' as u8, 't' as u8]);
        assert(cargo@ =~= seq!['c' as u8, 'a' as u8, 'r' as u8, 'g' as u8, 'o' as u8]);
        assert(npm@ =~= seq!['n' as u8, 'p' as u8, 'm' as u8]);
        assert(yarn@ =~= seq!['y' as u8, 'a' as u8, 'r' as u8, 'n' as u8]);
        assert(pnpm@ =~= seq!['p' as u8, 'n' as u8, 'p' as u8, 'm' as u8]);
        assert(docker@ =~= seq![
            'd' as u8,
            'o' as u8,
            'c' as u8,
            'k' as u8,
            'e' as u8,
            'r' as u8,
        ]);
        assert(kubectl@ =~= seq![
            'k' as u8,
            'u' as u8,
            'b' as u8,
            'e' as u8,
            'c' as u8,
            't' as u8,
            'l' as u8,
        ]);
        assert(systemctl@ =~= seq![
            's' as u8,
            'y' as u8,
            's' as u8,
            't' as u8,
            'e' as u8,
            'm' as u8,
            'c' as u8,
            't' as u8,
            'l' as u8,
        ]);
        assert(apt@ =~= seq!['a' as u8, 'p' as u8, 't' as u8]);
        assert(dnf@ =~= seq!['d' as u8, 'n' as u8, 'f' as u8]);
        assert(pacman@ =~= seq![
            'p' as u8,
            'a' as u8,
            'c' as u8,
            'm' as u8,
            'a' as u8,
            'n' as u8,
        ]);
        assert(brew@ =~= seq!['b' as u8, 'r' as u8, 'e' as u8, 'w' as u8]);
        assert(nix@ =~= seq!['n' as u8, 'i' as u8, 'x' as u8]);
        assert(rustup@ =~= seq![
            'r' as u8,
            'u' as u8,
            's' as u8,
            't' as u8,
            'u' as u8,
            'p' as u8,
        ]);
        assert(go@ =~= seq!['g' as u8, 'o' as u8]);
        assert(pip@ =~= seq!['p' as u8, 'i' as u8, 'p' as u8]);
        assert(poetry@ =~= seq![
            'p' as u8,
            'o' as u8,
            'e' as u8,
            't' as u8,
            'r' as u8,
            'y' as u8,
        ]);
    }
    same_bytes(name, git.as_slice()) || same_bytes(name, cargo.as_slice()) || same_bytes(
        name,
        npm.as_slice(),
    ) || same_bytes(name, yarn.as_slice()) || same_bytes(name, pnpm.as_slice()) || same_bytes(
        name,
        docker.as_slice(),
    ) || same_bytes(name, kubectl.as_slice()) || same_bytes(name, systemctl.as_slice())
        || same_bytes(name, apt.as_slice()) || same_bytes(name, dnf.as_slice()) || same_bytes(
        name,
        pacman.as_slice(),
    ) || same_bytes(name, brew.as_slice()) || same_bytes(name, nix.as_slice()) || same_bytes(
        name,
        rustup.as_slice(),
    ) || same_bytes(name, go.as_slice()) || same_bytes(name, pip.as_slice()) || same_bytes(
        name,
        poetry.as_slice(),
    )
}

/// The verdict on the word `w`, whose cleaned name is `name`.
pub fn judge(w: &[u8], name: &[u8], filter: &AHashSet<Vec<u8>>) -> (r: Verdict)
    requires
        name@ == cleaned(w@),
    ensures
        r == verdict(w@, members(*filter)),
{
    if w.len() > 0 && w[0] == '#' as u8 {
        Verdict::Stop
    } else if w.len() > 0 && w[0] == '-' as u8 {
        Verdict::Skip
    } else if name.len() == 0 {
        Verdict::Skip
    } else if name[0] == '#' as u8 {
        Verdict::Stop
    } else if name[0] == '-' as u8 {
        Verdict::Skip
    } else if is_member(filter, name) {
        Verdict::Skip
    } else if name[0] != '$' as u8 && find_byte(name, '=' as u8).is_some() {
        Verdict::Skip
    } else {
        Verdict::Take
    }
}

/// The aggregation key of one pipeline stage: the canonical name of the
/// command it runs, joined to its subcommand where `track_subcommands` asks
/// for that, or `None` when the stage runs no command.
pub fn get_first_word(cmd: &[u8], filtered: &AHashSet<Vec<u8>>, track_subcommands: bool) -> (r:
    Option<Vec<u8>>)
    ensures
        r is Some <==> command_key(cmd@, members(*filtered), track_subcommands) is Some,
        r is Some ==> r->0@ == command_key(cmd@, members(*filtered), track_subcommands)->0,
{
    let ghost filter = members(*filtered);
    let mut i: usize = 0;
    assert(cmd@.skip(0) =~= cmd@);
    loop
        invariant
            i <= cmd@.len(),
            filter == members(*filtered),
            command_key(cmd@, filter, track_subcommands) == key_in(
                words(cmd@.skip(i as int)),
                filter,
                track_subcommands,
            ),
        decreases cmd@.len() - i,
    {
        let span = match next_word(cmd, i) {
            None => {
                return None;
            },
            Some(span) => span,
        };
        let a = span.start;
        let b = span.end;
        let w = &cmd[a..b];
        let name = clean_word(w);
        let ghost rest = words(cmd@.skip(b as int));
        match judge(w, name, filtered) {
            Verdict::Stop => {
                proof {
                    lemma_key_after_stop(w@, rest, filter, track_subcommands);
                }
                return None;
            },
            Verdict::Skip => {
                proof {
                    lemma_key_after_skip(w@, rest, filter, track_subcommands);
                }
                i = b;
            },
            Verdict::Take => {
                proof {
                    lemma_key_after_take(w@, rest, filter, track_subcommands);
                }
                let mut key = vstd::slice::slice_to_vec(name);
                if track_subcommands && is_subcommand_tool(name) {
                    match next_word(cmd, b) {
                        None => {},
                        Some(next) => {
                            let c = next.start;
                            let d = next.end;
                            assert(rest[0] == cmd@.subrange(c as int, d as int));
                            if cmd[c] != '-' as u8 {
                                key.push(' ' as u8);
                                key.extend_from_slice(&cmd[c..d]);
                                assert(key@ =~= name@ + seq![' ' as u8] + rest[0]);
                            }
                        },
                    }
                }
                return Some(key);
            },
        }
    }
}

} // verus!
