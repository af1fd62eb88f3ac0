//! A small layout engine: trees of text that are written on one line when
//! they fit, and broken over several lines, indented, when they do not.
use vstd::prelude::*;
use vstd::utf8::encode_utf8;

verus! {

/// A tree to lay out.
#[derive(Debug)]
pub enum PrettyPrintTree {
    /// Text, written as it is (but for leading white space at the start of
    /// a line).
    Text(String),
    /// Content indented by one level when it starts a line.
    Indent(Box<PrettyPrintTree>),
    /// Content one after the other: on one line when it fits, else one part
    /// per line. `Some(false)` keeps the parts on one line (each laid out on
    /// its own), `Some(true)` always breaks.
    Sequence { content: Vec<PrettyPrintTree>, multiline_override: Option<bool> },
}

/// Where the writer stands: the indentation level, the indentation unit,
/// the width and whether the current line is still empty.
#[derive(Debug, Clone, Copy)]
pub struct PrettyPrintState<'a> {
    level: usize,
    indent: &'a str,
    max: usize,
    newline: bool,
}

// ---------------------------------------------------------------------
// The layout, as a function of the tree and the state

/// The length of a text in bytes.
pub open spec fn text_len(s: Seq<char>) -> nat {
    encode_utf8(s).len()
}

/// White space as `char::is_whitespace` documents it (the Unicode
/// White_Space property).
pub open spec fn is_white_space(c: char) -> bool {
    let n = c as u32;
    (0x9 <= n <= 0xd) || n == 0x20 || n == 0x85 || n == 0xa0 || n == 0x1680 || (0x2000 <= n
        <= 0x200a) || n == 0x2028 || n == 0x2029 || n == 0x202f || n == 0x205f || n == 0x3000
}

/// The number of white space characters `s` starts with.
pub open spec fn leading_white_space(s: Seq<char>) -> nat
    decreases s.len(),
{
    if s.len() > 0 && is_white_space(s[0]) {
        1 + leading_white_space(s.drop_first())
    } else {
        0
    }
}

/// `s` without its leading white space.
pub open spec fn trim_start(s: Seq<char>) -> Seq<char> {
    s.skip(leading_white_space(s) as int)
}

/// `s` repeated `n` times.
pub open spec fn repeat(s: Seq<char>, n: nat) -> Seq<char>
    decreases n,
{
    if n == 0 {
        Seq::empty()
    } else {
        repeat(s, (n - 1) as nat) + s
    }
}

/// The length of the tree on one line, unless it must break.
pub open spec fn write_len(t: PrettyPrintTree) -> Option<nat>
    decreases t,
{
    match t {
        PrettyPrintTree::Text(s) => Some(text_len(s@)),
        PrettyPrintTree::Indent(c) => write_len(*c),
        PrettyPrintTree::Sequence { content, multiline_override } => if multiline_override == Some(
            true,
        ) {
            None
        } else {
            sum_len(content@)
        },
    }
}

pub open spec fn sum_len(s: Seq<PrettyPrintTree>) -> Option<nat>
    decreases s,
{
    if s.len() == 0 {
        Some(0)
    } else {
        proof {
            assert(decreases_to!(s => s[s.len() - 1]));
        }
        match (sum_len(s.drop_last()), write_len(s[s.len() - 1])) {
            (Some(a), Some(b)) => Some(a + b),
            _ => None,
        }
    }
}

/// The total length of the texts of a tree.
pub open spec fn total_len(t: PrettyPrintTree) -> nat
    decreases t,
{
    match t {
        PrettyPrintTree::Text(s) => text_len(s@),
        PrettyPrintTree::Indent(c) => total_len(*c),
        PrettyPrintTree::Sequence { content, .. } => total_len_all(content@),
    }
}

pub open spec fn total_len_all(s: Seq<PrettyPrintTree>) -> nat
    decreases s,
{
    if s.len() == 0 {
        0
    } else {
        proof {
            assert(decreases_to!(s => s[s.len() - 1]));
        }
        total_len_all(s.drop_last()) + total_len(s[s.len() - 1])
    }
}

/// How deep indentations nest in a tree.
pub open spec fn depth(t: PrettyPrintTree) -> nat
    decreases t,
{
    match t {
        PrettyPrintTree::Text(_) => 0,
        PrettyPrintTree::Indent(c) => 1 + depth(*c),
        PrettyPrintTree::Sequence { content, .. } => depth_all(content@),
    }
}

pub open spec fn depth_all(s: Seq<PrettyPrintTree>) -> nat
    decreases s,
{
    if s.len() == 0 {
        0
    } else {
        proof {
            assert(decreases_to!(s => s[s.len() - 1]));
        }
        let (a, b) = (depth_all(s.drop_last()), depth(s[s.len() - 1]));
        if a < b {
            b
        } else {
            a
        }
    }
}

impl<'a> PrettyPrintState<'a> {
    pub closed spec fn level_of(self) -> nat {
        self.level as nat
    }

    pub closed spec fn indent_of(self) -> Seq<char> {
        self.indent@
    }

    pub closed spec fn max_of(self) -> nat {
        self.max as nat
    }

    pub closed spec fn newline_of(self) -> bool {
        self.newline
    }

    /// The state one level deeper.
    pub closed spec fn deeper(self) -> Self {
        PrettyPrintState { level: (self.level + 1) as usize, ..self }
    }

    /// The state with the current line empty or not.
    pub closed spec fn on_newline(self, newline: bool) -> Self {
        PrettyPrintState { newline, ..self }
    }

    /// What `deeper` and `on_newline` change of a state, and what they keep.
    pub proof fn lemma_state_steps(self, newline: bool)
        ensures
            self.level_of() < usize::MAX ==> self.deeper().level_of() == self.level_of() + 1,
            self.deeper().indent_of() == self.indent_of(),
            self.deeper().max_of() == self.max_of(),
            self.deeper().newline_of() == self.newline_of(),
            self.on_newline(newline).newline_of() == newline,
            self.on_newline(newline).level_of() == self.level_of(),
            self.on_newline(newline).indent_of() == self.indent_of(),
            self.on_newline(newline).max_of() == self.max_of(),
    {
    }
}

/// Whether the tree fits on the rest of the line.
pub open spec fn fits(t: PrettyPrintTree, st: PrettyPrintState) -> bool {
    match write_len(t) {
        Some(len) => st.level_of() * text_len(st.indent_of()) + len <= st.max_of(),
        None => false,
    }
}

/// The tree written on one line.
pub open spec fn write_line(t: PrettyPrintTree, st: PrettyPrintState) -> Seq<char>
    decreases t, 0int,
{
    match t {
        PrettyPrintTree::Text(s) => if st.newline_of() {
            trim_start(s@)
        } else {
            s@
        },
        PrettyPrintTree::Indent(c) => if st.newline_of() {
            st.indent_of() + write_line(*c, st.deeper())
        } else {
            write_line(*c, st)
        },
        PrettyPrintTree::Sequence { content, .. } => line_parts(content@, st),
    }
}

/// The parts written one after the other on one line; only the first can
/// start a line.
pub open spec fn line_parts(s: Seq<PrettyPrintTree>, st: PrettyPrintState) -> Seq<char>
    decreases s, 0int,
{
    if s.len() == 0 {
        Seq::empty()
    } else {
        proof {
            assert(decreases_to!(s => s[s.len() - 1]));
        }
        line_parts(s.drop_last(), st) + write_line(
            s[s.len() - 1],
            st.on_newline(st.newline_of() && s.len() == 1),
        )
    }
}

/// The tree written over several lines.
pub open spec fn write_multiline(t: PrettyPrintTree, st: PrettyPrintState) -> Seq<char>
    decreases t, 0int,
{
    match t {
        PrettyPrintTree::Text(s) => write_line(t, st),
        PrettyPrintTree::Indent(c) => if st.newline_of() {
            st.indent_of() + pretty_write(*c, st.deeper())
        } else {
            pretty_write(*c, st)
        },
        PrettyPrintTree::Sequence { content, multiline_override } => if multiline_override == Some(
            false,
        ) {
            flat_parts(content@, st)
        } else {
            broken_parts(content@, st)
        },
    }
}

/// The parts laid out each on its own, one after the other.
pub open spec fn flat_parts(s: Seq<PrettyPrintTree>, st: PrettyPrintState) -> Seq<char>
    decreases s, 0int,
{
    if s.len() == 0 {
        Seq::empty()
    } else {
        proof {
            assert(decreases_to!(s => s[s.len() - 1]));
        }
        flat_parts(s.drop_last(), st) + pretty_write(
            s[s.len() - 1],
            st.on_newline(st.newline_of() && s.len() == 1),
        )
    }
}

/// The parts laid out one per line, each after the first on a new line at
/// the current indentation.
pub open spec fn broken_parts(s: Seq<PrettyPrintTree>, st: PrettyPrintState) -> Seq<char>
    decreases s, 0int,
{
    if s.len() == 0 {
        Seq::empty()
    } else {
        proof {
            assert(decreases_to!(s => s[s.len() - 1]));
        }
        let rest = s.len() > 1;
        let sep = if rest {
            seq!['\n'] + repeat(st.indent_of(), st.level_of())
        } else {
            Seq::empty()
        };
        broken_parts(s.drop_last(), st) + sep + pretty_write(
            s[s.len() - 1],
            st.on_newline(st.newline_of() || rest),
        )
    }
}

/// The tree on one line when it fits, else over several lines.
pub open spec fn pretty_write(t: PrettyPrintTree, st: PrettyPrintState) -> Seq<char>
    decreases t, 1int,
{
    if fits(t, st) {
        write_line(t, st)
    } else {
        write_multiline(t, st)
    }
}

// ---------------------------------------------------------------------
// Bounds on lengths and depths of parts

proof fn lemma_total_len_prefix(s: Seq<PrettyPrintTree>, i: int)
    requires
        0 <= i <= s.len(),
    ensures
        total_len_all(s.subrange(0, i)) <= total_len_all(s),
        i < s.len() ==> total_len_all(s.subrange(0, i)) + total_len(s[i]) <= total_len_all(s),
    decreases s.len(),
{
    if i < s.len() {
        assert(s.drop_last().subrange(0, i) =~= s.subrange(0, i));
        if i < s.len() - 1 {
            lemma_total_len_prefix(s.drop_last(), i);
            assert(s.drop_last()[i] == s[i]);
        }
    } else {
        assert(s.subrange(0, i) =~= s);
    }
}

proof fn lemma_depth_elem(s: Seq<PrettyPrintTree>, i: int)
    requires
        0 <= i < s.len(),
    ensures
        depth(s[i]) <= depth_all(s),
    decreases s.len(),
{
    if i < s.len() - 1 {
        lemma_depth_elem(s.drop_last(), i);
        assert(s.drop_last()[i] == s[i]);
    }
}

proof fn lemma_sum_len_bound(s: Seq<PrettyPrintTree>)
    requires
        forall|j: int|
            0 <= j < s.len() ==> (#[trigger] write_len(s[j]) matches Some(n) ==> n <= total_len(
                s[j],
            )),
    ensures
        sum_len(s) matches Some(n) ==> n <= total_len_all(s),
    decreases s.len(),
{
    if s.len() > 0 {
        assert forall|j: int| 0 <= j < s.len() - 1 implies (#[trigger] write_len(
            s.drop_last()[j],
        ) matches Some(n) ==> n <= total_len(s.drop_last()[j])) by {
            assert(s.drop_last()[j] == s[j]);
        }
        lemma_sum_len_bound(s.drop_last());
        assert(write_len(s[s.len() - 1]) matches Some(n) ==> n <= total_len(s[s.len() - 1]));
    }
}

// ---------------------------------------------------------------------
// Writing

/// Whether `c` is white space.
pub(crate) fn is_white_space_char(c: char) -> (b: bool)
    ensures
        b == is_white_space(c),
{
    let n = c as u32;
    (0x9 <= n && n <= 0xd) || n == 0x20 || n == 0x85 || n == 0xa0 || n == 0x1680 || (0x2000 <= n
        && n <= 0x200a) || n == 0x2028 || n == 0x2029 || n == 0x202f || n == 0x205f || n == 0x3000
}

/// `s` without its leading white space.
fn trimmed(s: &str) -> (t: &str)
    ensures
        t@ == trim_start(s@),
{
    let n = s.unicode_len();
    let mut i: usize = 0;
    proof {
        assert(s@.skip(0) =~= s@);
    }
    while i < n && is_white_space_char(s.get_char(i))
        invariant
            i <= n,
            n == s@.len(),
            leading_white_space(s@) == i + leading_white_space(s@.skip(i as int)),
        decreases n - i,
    {
        proof {
            assert(s@.skip(i as int).drop_first() =~= s@.skip(i + 1));
            assert(s@.skip(i as int)[0] == s@[i as int]);
        }
        i = i + 1;
    }
    proof {
        if i < n {
            assert(s@.skip(i as int)[0] == s@[i as int]);
        }
    }
    s.substring_char(i, n)
}

impl<'a> PrettyPrintState<'a> {
    /// The state at the start of the output: level 0, at the start of a
    /// line.
    pub closed spec fn start(indent: &'a str, max: usize) -> Self {
        PrettyPrintState { level: 0, indent, max, newline: true }
    }

    /// The state at the start: level 0, the given indent and width, at the
    /// start of a line.
    pub proof fn lemma_start(indent: &'a str, max: usize)
        ensures
            Self::start(indent, max).level_of() == 0,
            Self::start(indent, max).indent_of() == indent@,
            Self::start(indent, max).max_of() == max,
            Self::start(indent, max).newline_of(),
    {
    }

    /// One level deeper.
    fn incr(&mut self)
        requires
            old(self).level_of() < usize::MAX,
        ensures
            *final(self) == old(self).deeper(),
    {
        self.level = self.level + 1;
    }

    /// Writes the indentation of the current level.
    fn write_indent(&self, out: &mut String)
        ensures
            final(out)@ == old(out)@ + repeat(self.indent_of(), self.level_of()),
    {
        let mut k: usize = 0;
        while k < self.level
            invariant
                k <= self.level,
                out@ == old(out)@ + repeat(self.indent@, k as nat),
            decreases self.level - k,
        {
            out.append(self.indent);
            proof {
                assert(repeat(self.indent@, (k + 1) as nat) == repeat(self.indent@, k as nat)
                    + self.indent@);
            }
            k = k + 1;
        }
    }

    fn with_newline(&self, newline: bool) -> (st: Self)
        ensures
            st == self.on_newline(newline),
    {
        PrettyPrintState { newline, ..*self }
    }

    fn fits(&self, len: usize) -> (fit: bool)
        ensures
            fit == (self.level_of() * text_len(self.indent_of()) + len <= self.max_of()),
    {
        let unit = self.indent.as_bytes().len();
        match self.level.checked_mul(unit) {
            None => false,
            Some(p) => match p.checked_add(len) {
                None => false,
                Some(q) => q <= self.max,
            },
        }
    }
}

impl PrettyPrintTree {
    /// The length of the tree on one line, unless it must break.
    #[verifier::loop_isolation(false)]
    pub fn write_len(&self) -> (len: Option<usize>)
        requires
            total_len(*self) <= usize::MAX,
        ensures
            match write_len(*self) {
                Some(n) => len == Some(n as usize) && n <= total_len(*self),
                None => len is None,
            },
        decreases self,
    {
        match self {
            PrettyPrintTree::Text(s) => Some(s.as_str().as_bytes().len()),
            PrettyPrintTree::Indent(c) => c.write_len(),
            PrettyPrintTree::Sequence { content, multiline_override } => {
                if *multiline_override == Some(true) {
                    return None;
                }
                let ghost all = content@;
                let mut sum: usize = 0;
                let mut i: usize = 0;
                while i < content.len()
                    invariant
                        i <= all.len(),
                        all == content@,
                        total_len_all(all) <= usize::MAX,
                        sum_len(all.subrange(0, i as int)) == Some(sum as nat),
                        sum <= total_len_all(all.subrange(0, i as int)),
                        forall|j: int|
                            0 <= j < i ==> (#[trigger] write_len(all[j]) matches Some(n) ==> n
                                <= total_len(all[j])),
                    decreases all.len() - i,
                {
                    proof {
                        lemma_total_len_prefix(all, i as int);
                        assert(decreases_to!(*self => content@[i as int]));
                        let pre = all.subrange(0, i + 1);
                        assert(pre.drop_last() =~= all.subrange(0, i as int));
                        assert(pre[pre.len() - 1] == all[i as int]);
                    }
                    match content[i].write_len() {
                        None => {
                            proof {
                                assert(sum_len(all.subrange(0, i + 1)) is None);
                                lemma_sum_len_none(all, i + 1);
                            }
                            return None;
                        },
                        Some(n) => {
                            sum = sum + n;
                        },
                    }
                    i = i + 1;
                }
                proof {
                    assert(all.subrange(0, all.len() as int) =~= all);
                }
                Some(sum)
            },
        }
    }

    /// Writes the tree on one line.
    #[verifier::loop_isolation(false)]
    fn write_line(&self, out: &mut String, state: PrettyPrintState)
        requires
            depth(*self) + state.level_of() <= usize::MAX,
        ensures
            final(out)@ == old(out)@ + write_line(*self, state),
        decreases self, 0int,
    {
        match self {
            PrettyPrintTree::Text(s) => {
                if state.newline {
                    out.append(trimmed(s.as_str()));
                } else {
                    out.append(s.as_str());
                }
            },
            PrettyPrintTree::Indent(c) => {
                let mut state = state;
                if state.newline {
                    out.append(state.indent);
                    state.incr();
                }
                c.write_line(out, state);
            },
            PrettyPrintTree::Sequence { content, .. } => {
                let ghost all = content@;
                let ghost start = out@;
                let mut i: usize = 0;
                while i < content.len()
                    invariant
                        i <= all.len(),
                        all == content@,
                        depth_all(all) + state.level_of() <= usize::MAX,
                        out@ == start + line_parts(all.subrange(0, i as int), state),
                    decreases all.len() - i,
                {
                    proof {
                        lemma_depth_elem(all, i as int);
                        assert(decreases_to!(*self => content@[i as int]));
                        let pre = all.subrange(0, i + 1);
                        assert(pre.drop_last() =~= all.subrange(0, i as int));
                        assert(pre[pre.len() - 1] == all[i as int]);
                    }
                    content[i].write_line(out, state.with_newline(state.newline && i == 0));
                    i = i + 1;
                }
                proof {
                    assert(all.subrange(0, all.len() as int) =~= all);
                }
            },
        }
    }

    /// Writes the tree over several lines.
    #[verifier::loop_isolation(false)]
    fn write_multiline(&self, out: &mut String, state: PrettyPrintState)
        requires
            total_len(*self) <= usize::MAX,
            depth(*self) + state.level_of() <= usize::MAX,
        ensures
            final(out)@ == old(out)@ + write_multiline(*self, state),
        decreases self, 0int,
    {
        match self {
            PrettyPrintTree::Text(_) => self.write_line(out, state),
            PrettyPrintTree::Indent(c) => {
                let mut state = state;
                if state.newline {
                    out.append(state.indent);
                    state.incr();
                }
                c.pretty_write(out, state);
            },
            PrettyPrintTree::Sequence { content, multiline_override } => {
                let ghost all = content@;
                let ghost start = out@;
                let flat = *multiline_override == Some(false);
                let mut i: usize = 0;
                while i < content.len()
                    invariant
                        i <= all.len(),
                        all == content@,
                        flat == (*multiline_override == Some(false)),
                        total_len_all(all) <= usize::MAX,
                        depth_all(all) + state.level_of() <= usize::MAX,
                        flat ==> out@ == start + flat_parts(all.subrange(0, i as int), state),
                        !flat ==> out@ == start + broken_parts(all.subrange(0, i as int), state),
                    decreases all.len() - i,
                {
                    proof {
                        lemma_depth_elem(all, i as int);
                        lemma_total_len_prefix(all, i as int);
                        assert(decreases_to!(*self => content@[i as int]));
                        let pre = all.subrange(0, i + 1);
                        assert(pre.drop_last() =~= all.subrange(0, i as int));
                        assert(pre[pre.len() - 1] == all[i as int]);
                    }
                    if flat {
                        content[i].pretty_write(out, state.with_newline(state.newline && i == 0));
                    } else {
                        let ghost before = out@;
                        if i > 0 {
                            out.append("\n");
                            proof {
                                reveal_strlit("\n");
                            }
                            state.write_indent(out);
                        }
                        content[i].pretty_write(out, state.with_newline(state.newline || i > 0));
                        proof {
                            let sep = if i > 0 {
                                seq!['\n'] + repeat(state.indent_of(), state.level_of())
                            } else {
                                Seq::empty()
                            };
                            assert(out@ =~= before + sep + pretty_write(
                                all[i as int],
                                state.on_newline(state.newline_of() || i > 0),
                            ));
                        }
                    }
                    i = i + 1;
                }
                proof {
                    assert(all.subrange(0, all.len() as int) =~= all);
                }
            },
        }
    }

    /// Writes the tree on one line when it fits, else over several lines.
    pub fn pretty_write(&self, out: &mut String, state: PrettyPrintState)
        requires
            total_len(*self) <= usize::MAX,
            depth(*self) + state.level_of() <= usize::MAX,
        ensures
            final(out)@ == old(out)@ + pretty_write(*self, state),
        decreases self, 1int,
    {
        let fit = match self.write_len() {
            Some(len) => state.fits(len),
            None => false,
        };
        if fit {
            self.write_line(out, state);
        } else {
            self.write_multiline(out, state);
        }
    }

    /// The tree laid out from the start of a line, `indent` being one level
    /// of indentation and `max` the width.
    pub fn write(&self, indent: &str, max: usize) -> (text: String)
        requires
            total_len(*self) <= usize::MAX,
            depth(*self) <= usize::MAX,
        ensures
            text@ == pretty_write(*self, PrettyPrintState::start(indent, max)),
    {
        let mut out = String::new();
        let state = PrettyPrintState { level: 0, indent, max, newline: true };
        self.pretty_write(&mut out, state);
        proof {
            assert(out@ =~= Seq::<char>::empty() + pretty_write(*self, state));
        }
        out
    }
}

proof fn lemma_sum_len_none(s: Seq<PrettyPrintTree>, k: int)
    requires
        0 <= k <= s.len(),
        sum_len(s.subrange(0, k)) is None,
    ensures
        sum_len(s) is None,
    decreases s.len(),
{
    if k < s.len() {
        assert(s.drop_last().subrange(0, k) =~= s.subrange(0, k));
        lemma_sum_len_none(s.drop_last(), k);
    } else {
        assert(s.subrange(0, k) =~= s);
    }
}

// ---------------------------------------------------------------------
// Building trees

/// A text part.
fn text(s: &str) -> (tree: PrettyPrintTree)
    ensures
        tree is Text && tree->Text_0@ == s@,
{
    PrettyPrintTree::Text(String::from_str(s))
}

/// Content indented by one level where it starts a line.
pub fn indent(content: PrettyPrintTree) -> (tree: PrettyPrintTree)
    ensures
        tree == PrettyPrintTree::Indent(Box::new(content)),
{
    PrettyPrintTree::Indent(Box::new(content))
}

/// Parts laid out as `multiline_override` says.
pub fn array_sequence(content: Vec<PrettyPrintTree>, multiline_override: Option<bool>) -> (tree:
    PrettyPrintTree)
    ensures
        tree == (PrettyPrintTree::Sequence { content, multiline_override }),
{
    PrettyPrintTree::Sequence { content, multiline_override }
}

/// Two parts one after the other.
fn pair(first: PrettyPrintTree, second: PrettyPrintTree) -> (parts: Vec<PrettyPrintTree>)
    ensures
        parts@ == seq![first, second],
{
    let mut parts: Vec<PrettyPrintTree> = Vec::new();
    parts.push(first);
    parts.push(second);
    proof {
        assert(parts@ =~= seq![first, second]);
    }
    parts
}

/// Content between an opening and a closing text, indented when it breaks.
pub fn bracket(open: &str, close: &str, content: PrettyPrintTree) -> (tree: PrettyPrintTree)
    ensures
        tree matches PrettyPrintTree::Sequence { content: parts, multiline_override } && {
            &&& multiline_override is None
            &&& parts@.len() == 3
            &&& parts@[0] is Text && parts@[0]->Text_0@ == open@
            &&& parts@[1] == PrettyPrintTree::Indent(Box::new(content))
            &&& parts@[2] is Text && parts@[2]->Text_0@ == close@
        },
{
    let mut parts: Vec<PrettyPrintTree> = Vec::new();
    parts.push(text(open));
    parts.push(indent(content));
    parts.push(text(close));
    array_sequence(parts, None)
}

/// Parts kept on one line, each laid out on its own.
pub fn line(content: Vec<PrettyPrintTree>) -> (tree: PrettyPrintTree)
    ensures
        tree == (PrettyPrintTree::Sequence { content, multiline_override: Some(false) }),
{
    array_sequence(content, Some(false))
}

/// A text followed by content, indented when it starts a line.
pub fn prefix(head: &str, content: PrettyPrintTree) -> (tree: PrettyPrintTree)
    ensures
        tree matches PrettyPrintTree::Sequence { content: parts, multiline_override } && {
            &&& multiline_override == Some(false)
            &&& parts@.len() == 2
            &&& parts@[0] is Text && parts@[0]->Text_0@ == head@
            &&& parts@[1] == PrettyPrintTree::Indent(Box::new(content))
        },
{
    line(pair(text(head), indent(content)))
}

/// Content, indented when it starts a line, followed by a text.
pub fn postfix(tail: &str, content: PrettyPrintTree) -> (tree: PrettyPrintTree)
    ensures
        tree matches PrettyPrintTree::Sequence { content: parts, multiline_override } && {
            &&& multiline_override == Some(false)
            &&& parts@.len() == 2
            &&& parts@[0] == PrettyPrintTree::Indent(Box::new(content))
            &&& parts@[1] is Text && parts@[1]->Text_0@ == tail@
        },
{
    line(pair(indent(content), text(tail)))
}

/// Parts on one line when they fit, else one per line.
pub fn sequence(content: Vec<PrettyPrintTree>) -> (tree: PrettyPrintTree)
    ensures
        tree == (PrettyPrintTree::Sequence { content, multiline_override: None }),
{
    array_sequence(content, None)
}

/// Parts one per line.
pub fn multiline_sequence(content: Vec<PrettyPrintTree>) -> (tree: PrettyPrintTree)
    ensures
        tree == (PrettyPrintTree::Sequence { content, multiline_override: Some(true) }),
{
    array_sequence(content, Some(true))
}

/// Values that can be laid out.
pub trait PrettyPrint {
    /// The tree of the value.
    spec fn pretty_tree(&self) -> PrettyPrintTree;

    /// The tree of the value.
    fn to_pretty_print(&self) -> (tree: PrettyPrintTree)
        ensures
            tree == self.pretty_tree(),
    ;

    /// The value laid out from the start of a line.
    fn pretty_print(&self, indent: &str, max: usize) -> (text: String)
        requires
            total_len(self.pretty_tree()) <= usize::MAX,
            depth(self.pretty_tree()) <= usize::MAX,
        ensures
            text@ == pretty_write(self.pretty_tree(), PrettyPrintState::start(indent, max)),
    {
        self.to_pretty_print().write(indent, max)
    }
}

// ---------------------------------------------------------------------
// What fits is written on one line

/// The text has no line break.
pub open spec fn no_break(s: Seq<char>) -> bool {
    forall|i: int| 0 <= i < s.len() ==> s[i] != '\n'
}

/// No text of the tree has a line break.
pub open spec fn texts_no_break(t: PrettyPrintTree) -> bool
    decreases t,
{
    match t {
        PrettyPrintTree::Text(s) => no_break(s@),
        PrettyPrintTree::Indent(c) => texts_no_break(*c),
        PrettyPrintTree::Sequence { content, .. } => all_texts_no_break(content@),
    }
}

pub open spec fn all_texts_no_break(s: Seq<PrettyPrintTree>) -> bool
    decreases s,
{
    if s.len() == 0 {
        true
    } else {
        proof {
            assert(decreases_to!(s => s[s.len() - 1]));
        }
        all_texts_no_break(s.drop_last()) && texts_no_break(s[s.len() - 1])
    }
}

proof fn lemma_leading_white_space_bound(s: Seq<char>)
    ensures
        leading_white_space(s) <= s.len(),
    decreases s.len(),
{
    if s.len() > 0 && is_white_space(s[0]) {
        lemma_leading_white_space_bound(s.drop_first());
    }
}

proof fn lemma_write_line_no_break(t: PrettyPrintTree, st: PrettyPrintState)
    requires
        texts_no_break(t),
        no_break(st.indent_of()),
    ensures
        no_break(write_line(t, st)),
    decreases t, 0int,
{
    match t {
        PrettyPrintTree::Text(s) => {
            let k = leading_white_space(s@);
            lemma_leading_white_space_bound(s@);
            assert(no_break(s@.skip(k as int))) by {
                assert forall|i: int| 0 <= i < s@.skip(k as int).len() implies s@.skip(k as int)[i]
                    != '\n' by {
                    assert(s@.skip(k as int)[i] == s@[i + k]);
                }
            }
        },
        PrettyPrintTree::Indent(c) => {
            lemma_write_line_no_break(*c, st.deeper());
            lemma_write_line_no_break(*c, st);
            assert(no_break(st.indent_of() + write_line(*c, st.deeper()))) by {
                let a = st.indent_of();
                let b = write_line(*c, st.deeper());
                assert forall|i: int| 0 <= i < (a + b).len() implies (a + b)[i] != '\n' by {
                    if i >= a.len() {
                        assert((a + b)[i] == b[i - a.len()]);
                    }
                }
            }
        },
        PrettyPrintTree::Sequence { content, .. } => {
            assert(decreases_to!(t => content@));
            lemma_line_parts_no_break(content@, st);
        },
    }
}

proof fn lemma_line_parts_no_break(s: Seq<PrettyPrintTree>, st: PrettyPrintState)
    requires
        all_texts_no_break(s),
        no_break(st.indent_of()),
    ensures
        no_break(line_parts(s, st)),
    decreases s, 0int,
{
    if s.len() > 0 {
        assert(decreases_to!(s => s[s.len() - 1]));
        let st1 = st.on_newline(st.newline_of() && s.len() == 1);
        lemma_line_parts_no_break(s.drop_last(), st);
        lemma_write_line_no_break(s[s.len() - 1], st1);
        let a = line_parts(s.drop_last(), st);
        let b = write_line(s[s.len() - 1], st1);
        assert forall|i: int| 0 <= i < (a + b).len() implies (a + b)[i] != '\n' by {
            if i >= a.len() {
                assert((a + b)[i] == b[i - a.len()]);
            }
        }
    }
}

/// A tree that fits in the width is written on a single line: the layout
/// puts no line break in it (when its texts and the indentation have none).
pub proof fn law_fitting_tree_on_one_line(t: PrettyPrintTree, st: PrettyPrintState)
    requires
        texts_no_break(t),
        no_break(st.indent_of()),
        fits(t, st),
    ensures
        pretty_write(t, st) == write_line(t, st),
        no_break(pretty_write(t, st)),
{
    lemma_write_line_no_break(t, st);
}

} // verus!
