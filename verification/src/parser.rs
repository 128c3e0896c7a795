//! The character-level parser: a single pass over the input characters
//! that tracks brace nesting on a stack of open groups and materialises
//! the recursive [`Value`] model.
//!
//! The executable parser mirrors, character for character, the
//! specification-level transition function [`spec_step`]; parsing a text
//! is folding [`spec_step`] over its characters from [`spec_init`] and
//! extracting the root fields with [`spec_finish`].
//!
//! Lexical rules: `=`, `{`, `}` and `"` are structural; whitespace,
//! commas, semicolons and parentheses separate tokens; `#` and `!` start
//! a comment that runs to the end of the line and is fully transparent;
//! a quoted run immediately followed by an underscore is stitched with
//! the underscore-prefixed bare run into a single token. A bare scalar
//! directly followed by a braced group (`hsv { … }`) reads as a tagged
//! two-element array of the tag and the group.
use vstd::prelude::*;
use crate::format::{spec_is_space, Format};
use crate::text::push_char;
use crate::value::{ObjField, FieldV, Value, ValueV};

verus! {

// ---------------------------------------------------------------------
// Character classes
// ---------------------------------------------------------------------
/// Characters that only separate tokens.
pub open spec fn spec_skippable(c: char) -> bool {
    spec_is_space(c) || c == ',' || c == ';' || c == '(' || c == ')'
}

/// Characters that open a line comment.
pub open spec fn spec_comment_start(c: char) -> bool {
    c == '#' || c == '!'
}

/// Characters that may appear in a bare (unquoted) token.
pub open spec fn spec_bare(c: char) -> bool {
    !spec_skippable(c) && !spec_comment_start(c) && c != '=' && c != '{' && c != '}' && c != '"'
}

fn is_skippable(c: char) -> (r: bool)
    ensures
        r == spec_skippable(c),
{
    Format::is_space(c) || c == ',' || c == ';' || c == '(' || c == ')'
}

fn is_comment_start(c: char) -> (r: bool)
    ensures
        r == spec_comment_start(c),
{
    c == '#' || c == '!'
}

fn is_bare(c: char) -> (r: bool)
    ensures
        r == spec_bare(c),
{
    !is_skippable(c) && !is_comment_start(c) && c != '=' && c != '{' && c != '}' && c != '"'
}

// ---------------------------------------------------------------------
// Specification-level state
// ---------------------------------------------------------------------
/// One element of a braced group: a `key = value` field or a lone value.
#[verifier::ext_equal]
pub enum ElemV {
    Field(Seq<char>, ValueV),
    Lone(ValueV),
}

/// One open group: its header tag if it was opened by `tag {`, the key of
/// the field whose value is being read (if any), and the elements read so
/// far. The bottom frame stands for the file itself.
#[verifier::ext_equal]
pub struct FrameV {
    pub header: Option<Seq<char>>,
    pub key: Option<Seq<char>>,
    pub elems: Seq<ElemV>,
}

/// Where the scanner stands within a token.
#[verifier::ext_equal]
pub enum ModeV {
    /// Between tokens.
    Idle,
    /// Inside a bare token with the given text so far.
    Word(Seq<char>),
    /// After a complete token whose role (key, scalar, group tag) is not
    /// yet decided.
    Pending(Seq<char>),
    /// Inside a quoted token.
    Quoted(Seq<char>),
    /// Directly after a closing quote; an underscore continues the token.
    AfterQuote(Seq<char>),
}

/// The whole parser state: failed, or running with a frame stack, a
/// scanning mode and a comment flag.
#[verifier::ext_equal]
pub enum StateV {
    Failed,
    Run { stack: Seq<FrameV>, mode: ModeV, comment: bool },
}

/// The value a closed group denotes: an empty pair is the explicit absent
/// value, all-lone elements are an array, all-field elements an object,
/// and a mixture is a structural error.
pub open spec fn spec_group_value(elems: Seq<ElemV>) -> Option<ValueV> {
    if elems.len() == 0 {
        Some(ValueV::Absent)
    } else if forall|i: int| 0 <= i < elems.len() ==> elems[i] is Field {
        Some(
            ValueV::Object(
                elems.map_values(|e: ElemV| (FieldV { key: e->Field_0, val: e->Field_1 })),
            ),
        )
    } else if forall|i: int| 0 <= i < elems.len() ==> elems[i] is Lone {
        Some(ValueV::Array(elems.map_values(|e: ElemV| e->Lone_0)))
    } else {
        None
    }
}

/// A group opened by `tag {` wraps its value into `[tag, value]`.
pub open spec fn spec_wrap_header(header: Option<Seq<char>>, v: ValueV) -> ValueV {
    match header {
        Some(h) => ValueV::Array(seq![ValueV::Scalar(h), v]),
        None => v,
    }
}

/// Attaches a finished value to the top frame: as the pending field's
/// value if a key is waiting, else as a lone element. A lone value at the
/// file level is a structural error (`None`).
pub open spec fn spec_commit(stack: Seq<FrameV>, v: ValueV) -> Option<Seq<FrameV>> {
    let top = stack.last();
    match top.key {
        Some(k) => Some(
            stack.update(
                stack.len() - 1,
                FrameV { header: top.header, key: None, elems: top.elems.push(ElemV::Field(k, v)) },
            ),
        ),
        None => if stack.len() == 1 {
            None
        } else {
            Some(
                stack.update(
                    stack.len() - 1,
                    FrameV {
                        header: top.header,
                        key: None,
                        elems: top.elems.push(ElemV::Lone(v)),
                    },
                ),
            )
        },
    }
}

/// Closes the top group on `}`: the file-level frame cannot be closed, a
/// dangling `key =` is an error, and the group's value is committed to
/// the frame below.
pub open spec fn spec_close(stack: Seq<FrameV>) -> Option<Seq<FrameV>> {
    if stack.len() < 2 {
        None
    } else {
        let top = stack.last();
        if top.key is Some {
            None
        } else {
            match spec_group_value(top.elems) {
                None => None,
                Some(v0) => spec_commit(stack.drop_last(), spec_wrap_header(top.header, v0)),
            }
        }
    }
}

/// Resolves a completed token text `w` against the next character `c`:
/// `=` makes it a key, `{` a group header, anything else commits it as a
/// scalar and handles `c` in turn.
pub open spec fn spec_word_step(stack: Seq<FrameV>, w: Seq<char>, c: char) -> StateV {
    if spec_bare(c) {
        match spec_commit(stack, ValueV::Scalar(w)) {
            None => StateV::Failed,
            Some(s2) => StateV::Run { stack: s2, mode: ModeV::Word(seq![c]), comment: false },
        }
    } else if spec_skippable(c) {
        StateV::Run { stack, mode: ModeV::Pending(w), comment: false }
    } else if spec_comment_start(c) {
        StateV::Run { stack, mode: ModeV::Pending(w), comment: true }
    } else if c == '"' {
        match spec_commit(stack, ValueV::Scalar(w)) {
            None => StateV::Failed,
            Some(s2) => StateV::Run {
                stack: s2,
                mode: ModeV::Quoted(Seq::empty()),
                comment: false,
            },
        }
    } else if c == '=' {
        let top = stack.last();
        if top.key is None {
            StateV::Run {
                stack: stack.update(
                    stack.len() - 1,
                    FrameV { header: top.header, key: Some(w), elems: top.elems },
                ),
                mode: ModeV::Idle,
                comment: false,
            }
        } else {
            StateV::Failed
        }
    } else if c == '{' {
        StateV::Run {
            stack: stack.push(FrameV { header: Some(w), key: None, elems: Seq::empty() }),
            mode: ModeV::Idle,
            comment: false,
        }
    } else {
        match spec_commit(stack, ValueV::Scalar(w)) {
            None => StateV::Failed,
            Some(s2) => match spec_close(s2) {
                None => StateV::Failed,
                Some(s3) => StateV::Run { stack: s3, mode: ModeV::Idle, comment: false },
            },
        }
    }
}

/// One character between tokens.
pub open spec fn spec_idle_step(stack: Seq<FrameV>, c: char) -> StateV {
    if spec_skippable(c) {
        StateV::Run { stack, mode: ModeV::Idle, comment: false }
    } else if spec_comment_start(c) {
        StateV::Run { stack, mode: ModeV::Idle, comment: true }
    } else if c == '"' {
        StateV::Run { stack, mode: ModeV::Quoted(Seq::empty()), comment: false }
    } else if c == '=' {
        StateV::Failed
    } else if c == '{' {
        StateV::Run {
            stack: stack.push(FrameV { header: None, key: None, elems: Seq::empty() }),
            mode: ModeV::Idle,
            comment: false,
        }
    } else if c == '}' {
        match spec_close(stack) {
            None => StateV::Failed,
            Some(s2) => StateV::Run { stack: s2, mode: ModeV::Idle, comment: false },
        }
    } else {
        StateV::Run { stack, mode: ModeV::Word(seq![c]), comment: false }
    }
}

/// The transition function: what one input character does to the state.
pub open spec fn spec_step(st: StateV, c: char) -> StateV {
    match st {
        StateV::Failed => StateV::Failed,
        StateV::Run { stack, mode, comment } => {
            if comment {
                StateV::Run { stack, mode, comment: c != '\n' }
            } else {
                match mode {
                    ModeV::Idle => spec_idle_step(stack, c),
                    ModeV::Word(w) => if spec_bare(c) {
                        StateV::Run { stack, mode: ModeV::Word(w.push(c)), comment: false }
                    } else {
                        spec_word_step(stack, w, c)
                    },
                    ModeV::Pending(w) => spec_word_step(stack, w, c),
                    ModeV::Quoted(w) => if c == '"' {
                        StateV::Run { stack, mode: ModeV::AfterQuote(w), comment: false }
                    } else {
                        StateV::Run { stack, mode: ModeV::Quoted(w.push(c)), comment: false }
                    },
                    ModeV::AfterQuote(w) => if c == '_' {
                        StateV::Run { stack, mode: ModeV::Word(w.push('_')), comment: false }
                    } else {
                        spec_word_step(stack, w, c)
                    },
                }
            }
        },
    }
}

/// The starting state: one open file-level frame.
pub open spec fn spec_init() -> StateV {
    StateV::Run {
        stack: seq![FrameV { header: None, key: None, elems: Seq::empty() }],
        mode: ModeV::Idle,
        comment: false,
    }
}

/// Folds [`spec_step`] over the characters of `s`.
pub open spec fn spec_run(st: StateV, s: Seq<char>) -> StateV
    decreases s.len(),
{
    if s.len() == 0 {
        st
    } else {
        spec_run(spec_step(st, s[0]), s.drop_first())
    }
}

/// The file-level fields, if every element of the file frame is a field.
pub open spec fn spec_root_fields(elems: Seq<ElemV>) -> Option<Seq<(Seq<char>, ValueV)>> {
    if forall|i: int| 0 <= i < elems.len() ==> elems[i] is Field {
        Some(elems.map_values(|e: ElemV| (e->Field_0, e->Field_1)))
    } else {
        None
    }
}

/// What a final state yields at end of input: a trailing token commits as
/// a scalar, all braces must be balanced (only the file frame open, no
/// dangling `key =`), and an unterminated quote is a structural error.
pub open spec fn spec_finish(st: StateV) -> Option<Seq<(Seq<char>, ValueV)>> {
    match st {
        StateV::Failed => None,
        StateV::Run { stack, mode, comment } => {
            let resolved = match mode {
                ModeV::Idle => Some(stack),
                ModeV::Word(w) => spec_commit(stack, ValueV::Scalar(w)),
                ModeV::Pending(w) => spec_commit(stack, ValueV::Scalar(w)),
                ModeV::AfterQuote(w) => spec_commit(stack, ValueV::Scalar(w)),
                ModeV::Quoted(w) => None,
            };
            match resolved {
                None => None,
                Some(s2) => if s2.len() == 1 && s2[0].key is None {
                    spec_root_fields(s2[0].elems)
                } else {
                    None
                },
            }
        },
    }
}

/// The structural parse of a whole text: the list of file-level
/// `key = value` pairs, or `None` on a structural error.
pub open spec fn spec_parse_text(s: Seq<char>) -> Option<Seq<(Seq<char>, ValueV)>> {
    spec_finish(spec_run(spec_init(), s))
}

/// Running a state over concatenated input is running it over each part
/// in turn.
pub proof fn lemma_run_append(st: StateV, a: Seq<char>, b: Seq<char>)
    ensures
        spec_run(st, a + b) == spec_run(spec_run(st, a), b),
    decreases a.len(),
{
    if a.len() == 0 {
        assert(a + b =~= b);
    } else {
        assert((a + b)[0] == a[0]);
        assert((a + b).drop_first() =~= a.drop_first() + b);
        lemma_run_append(spec_step(st, a[0]), a.drop_first(), b);
    }
}

/// Running over one more character steps the state once.
pub proof fn lemma_run_snoc(st: StateV, s: Seq<char>, c: char)
    ensures
        spec_run(st, s.push(c)) == spec_step(spec_run(st, s), c),
{
    assert(s.push(c) =~= s + seq![c]);
    lemma_run_append(st, s, seq![c]);
    let st2 = spec_run(st, s);
    let t = seq![c];
    assert(t.len() == 1 && t[0] == c);
    assert(t.drop_first() =~= Seq::<char>::empty());
    assert(spec_run(st2, t) == spec_run(spec_step(st2, c), Seq::<char>::empty()));
    assert(spec_run(spec_step(st2, c), Seq::<char>::empty()) == spec_step(st2, c));
}

// ---------------------------------------------------------------------
// Executable state
// ---------------------------------------------------------------------
/// Executable counterpart of [`ElemV`].
pub enum Element {
    Field(String, Value),
    Lone(Value),
}

impl View for Element {
    type V = ElemV;

    open spec fn view(&self) -> ElemV {
        match self {
            Element::Field(k, v) => ElemV::Field(k@, v@),
            Element::Lone(v) => ElemV::Lone(v@),
        }
    }
}

/// Executable counterpart of [`FrameV`].
pub struct Frame {
    pub header: Option<String>,
    pub key: Option<String>,
    pub elems: Vec<Element>,
}

/// The view of an option of a string.
pub open spec fn opt_str_view(o: Option<String>) -> Option<Seq<char>> {
    match o {
        Some(s) => Some(s@),
        None => None,
    }
}

impl View for Frame {
    type V = FrameV;

    open spec fn view(&self) -> FrameV {
        FrameV {
            header: opt_str_view(self.header),
            key: opt_str_view(self.key),
            elems: self.elems@.map_values(|e: Element| e@),
        }
    }
}

/// The view of a frame stack.
pub open spec fn frames_view(s: Seq<Frame>) -> Seq<FrameV> {
    s.map_values(|f: Frame| f@)
}

/// Executable counterpart of [`ModeV`].
pub enum Mode {
    Idle,
    Word(String),
    Pending(String),
    Quoted(String),
    AfterQuote(String),
}

impl View for Mode {
    type V = ModeV;

    open spec fn view(&self) -> ModeV {
        match self {
            Mode::Idle => ModeV::Idle,
            Mode::Word(w) => ModeV::Word(w@),
            Mode::Pending(w) => ModeV::Pending(w@),
            Mode::Quoted(w) => ModeV::Quoted(w@),
            Mode::AfterQuote(w) => ModeV::AfterQuote(w@),
        }
    }
}

/// The streaming character-level parser. Feed it characters one at a
/// time with [`ParadoxParser::step`]; the final [`ParadoxParser::finish`]
/// yields the file's root fields.
pub struct ParadoxParser {
    pub stack: Vec<Frame>,
    pub mode: Mode,
    pub comment: bool,
    pub err: bool,
}

impl View for ParadoxParser {
    type V = StateV;

    open spec fn view(&self) -> StateV {
        if self.err {
            StateV::Failed
        } else {
            StateV::Run { stack: frames_view(self.stack@), mode: self.mode@, comment: self.comment }
        }
    }
}

impl ParadoxParser {
    /// Well-formed: unless failed, at least the file-level frame is open.
    pub open spec fn wf(&self) -> bool {
        !self.err ==> self.stack@.len() >= 1
    }

    /// A fresh parser at the start of a file.
    pub fn new() -> (r: ParadoxParser)
        ensures
            r.wf(),
            r@ == spec_init(),
    {
        let mut stack: Vec<Frame> = Vec::new();
        stack.push(Frame { header: None, key: None, elems: Vec::new() });
        let r = ParadoxParser { stack, mode: Mode::Idle, comment: false, err: false };
        proof {
            assert(frames_view(r.stack@) =~~= seq![
                FrameV { header: None, key: None, elems: Seq::empty() },
            ]);
            assert(r@ =~~= spec_init());
        }
        r
    }

    /// The current brace-nesting depth: 0 at file level.
    pub fn get_current_indent(&self) -> (r: usize)
        requires
            self.wf(),
            !self.err,
        ensures
            r + 1 == self@->Run_stack.len(),
    {
        self.stack.len() - 1
    }

    /// Attaches `v` to the top frame; on a structural error records the
    /// failure and returns false.
    fn commit_value(&mut self, v: Value)
        requires
            old(self).wf(),
            !old(self).err,
        ensures
            final(self).wf(),
            final(self).mode == old(self).mode,
            final(self).comment == old(self).comment,
            match spec_commit(frames_view(old(self).stack@), v@) {
                None => final(self).err,
                Some(s2) => !final(self).err && frames_view(final(self).stack@) == s2,
            },
    {
        let ghost old_stack = frames_view(self.stack@);
        let top_opt = self.stack.pop();
        let top = match top_opt {
            Some(t) => t,
            None => {
                self.err = true;
                return ;
            },
        };
        let Frame { header, key, mut elems } = top;
        match key {
            Some(k) => {
                elems.push(Element::Field(k, v));
                self.stack.push(Frame { header, key: None, elems });
                proof {
                    let s2 = spec_commit(old_stack, v@).unwrap();
                    assert(frames_view(self.stack@) =~~= s2);
                }
            },
            None => {
                if self.stack.len() == 0 {
                    self.err = true;
                } else {
                    elems.push(Element::Lone(v));
                    self.stack.push(Frame { header, key: None, elems });
                    proof {
                        let s2 = spec_commit(old_stack, v@).unwrap();
                        assert(frames_view(self.stack@) =~~= s2);
                    }
                }
            },
        }
    }

    /// Resolves the completed token `w` against the character `c`.
    fn word_step(&mut self, w: String, c: char)
        requires
            old(self).wf(),
            !old(self).err,
            !old(self).comment,
            old(self).mode@ is Idle,
        ensures
            final(self).wf(),
            final(self)@ == spec_word_step(frames_view(old(self).stack@), w@, c),
    {
        let ghost w_view = w@;
        if is_bare(c) {
            self.commit_value(Value::Scalar(w));
            if !self.err {
                let mut s = String::new();
                push_char(&mut s, c);
                proof {
                    assert(s@ =~= seq![c]);
                }
                self.mode = Mode::Word(s);
            }
        } else if is_skippable(c) {
            self.mode = Mode::Pending(w);
        } else if is_comment_start(c) {
            self.mode = Mode::Pending(w);
            self.comment = true;
        } else if c == '"' {
            self.commit_value(Value::Scalar(w));
            if !self.err {
                self.mode = Mode::Quoted(String::new());
            }
        } else if c == '=' {
            let top_opt = self.stack.pop();
            let mut top = match top_opt {
                Some(t) => t,
                None => {
                    self.err = true;
                    return ;
                },
            };
            if top.key.is_some() {
                self.err = true;
                return ;
            }
            top.key = Some(w);
            self.stack.push(top);
            proof {
                let pre = frames_view(old(self).stack@);
                let want = pre.update(
                    pre.len() - 1,
                    FrameV {
                        header: pre.last().header,
                        key: Some(w_view),
                        elems: pre.last().elems,
                    },
                );
                assert(frames_view(self.stack@) =~~= want);
            }
        } else if c == '{' {
            self.stack.push(Frame { header: Some(w), key: None, elems: Vec::new() });
            proof {
                let pre = frames_view(old(self).stack@);
                assert(frames_view(self.stack@) =~~= pre.push(
                    FrameV { header: Some(w_view), key: None, elems: Seq::empty() },
                ));
            }
        } else {
            self.commit_value(Value::Scalar(w));
            if !self.err {
                self.close_frame();
            }
        }
    }

    /// One character while between tokens.
    fn idle_step(&mut self, c: char)
        requires
            old(self).wf(),
            !old(self).err,
            !old(self).comment,
            old(self).mode@ is Idle,
        ensures
            final(self).wf(),
            final(self)@ == spec_idle_step(frames_view(old(self).stack@), c),
    {
        if is_skippable(c) {
        } else if is_comment_start(c) {
            self.comment = true;
        } else if c == '"' {
            self.mode = Mode::Quoted(String::new());
        } else if c == '=' {
            self.err = true;
        } else if c == '{' {
            self.stack.push(Frame { header: None, key: None, elems: Vec::new() });
            proof {
                let pre = frames_view(old(self).stack@);
                assert(frames_view(self.stack@) =~~= pre.push(
                    FrameV { header: None, key: None, elems: Seq::empty() },
                ));
            }
        } else if c == '}' {
            self.close_frame();
        } else {
            let mut s = String::new();
            push_char(&mut s, c);
            proof {
                assert(s@ =~= seq![c]);
            }
            self.mode = Mode::Word(s);
        }
    }

    /// Feeds one input character to the parser.
    pub fn step(&mut self, c: char)
        requires
            old(self).wf(),
        ensures
            final(self).wf(),
            final(self)@ == spec_step(old(self)@, c),
    {
        if self.err {
            return ;
        }
        if self.comment {
            if c == '\n' {
                self.comment = false;
            }
            return ;
        }
        let mut m = Mode::Idle;
        core::mem::swap(&mut m, &mut self.mode);
        match m {
            Mode::Idle => {
                self.idle_step(c);
            },
            Mode::Word(mut w) => {
                if is_bare(c) {
                    push_char(&mut w, c);
                    self.mode = Mode::Word(w);
                } else {
                    self.word_step(w, c);
                }
            },
            Mode::Pending(w) => {
                self.word_step(w, c);
            },
            Mode::Quoted(mut w) => {
                if c == '"' {
                    self.mode = Mode::AfterQuote(w);
                } else {
                    push_char(&mut w, c);
                    self.mode = Mode::Quoted(w);
                }
            },
            Mode::AfterQuote(mut w) => {
                if c == '_' {
                    push_char(&mut w, '_');
                    self.mode = Mode::Word(w);
                } else {
                    self.word_step(w, c);
                }
            },
        }
    }

    /// Ends the input: commits a trailing token, checks that only the
    /// file-level frame is open, and returns the file's fields.
    pub fn finish(self) -> (r: Option<Vec<(String, Value)>>)
        requires
            self.wf(),
        ensures
            match spec_finish(self@) {
                None => r is None,
                Some(fs) => r is Some && r->0@.map_values(|p: (String, Value)| (p.0@, p.1@))
                    == fs,
            },
    {
        if self.err {
            return None;
        }
        let mut this = self;
        let mut m = Mode::Idle;
        core::mem::swap(&mut m, &mut this.mode);
        match m {
            Mode::Idle => {},
            Mode::Word(w) => {
                this.commit_value(Value::Scalar(w));
            },
            Mode::Pending(w) => {
                this.commit_value(Value::Scalar(w));
            },
            Mode::AfterQuote(w) => {
                this.commit_value(Value::Scalar(w));
            },
            Mode::Quoted(_) => {
                return None;
            },
        }
        proof {
            let st0 = self@;
            let resolved = match st0->Run_mode {
                ModeV::Idle => Some(st0->Run_stack),
                ModeV::Word(w) => spec_commit(st0->Run_stack, ValueV::Scalar(w)),
                ModeV::Pending(w) => spec_commit(st0->Run_stack, ValueV::Scalar(w)),
                ModeV::AfterQuote(w) => spec_commit(st0->Run_stack, ValueV::Scalar(w)),
                ModeV::Quoted(w) => None,
            };
            assert(this.err ==> resolved is None || resolved is Some);
            if !this.err {
                assert(resolved == Some(frames_view(this.stack@)));
            } else {
                assert(resolved is None);
            }
        }
        if this.err {
            return None;
        }
        if this.stack.len() != 1 {
            return None;
        }
        let ghost pre_stack = frames_view(this.stack@);
        let root_opt = this.stack.pop();
        let root = match root_opt {
            Some(t) => t,
            None => {
                return None;
            },
        };
        proof {
            assert(pre_stack[0] == root@);
        }
        if root.key.is_some() {
            return None;
        }
        let ghost orig = root.elems@.map_values(|e: Element| e@);
        proof {
            assert(orig == pre_stack[0].elems);
            let st0 = self@;
            let resolved = match st0->Run_mode {
                ModeV::Idle => Some(st0->Run_stack),
                ModeV::Word(w) => spec_commit(st0->Run_stack, ValueV::Scalar(w)),
                ModeV::Pending(w) => spec_commit(st0->Run_stack, ValueV::Scalar(w)),
                ModeV::AfterQuote(w) => spec_commit(st0->Run_stack, ValueV::Scalar(w)),
                ModeV::Quoted(w) => None,
            };
            assert(resolved == Some(pre_stack));
            assert(pre_stack.len() == 1);
            assert(pre_stack[0].key is None);
            assert(spec_finish(self@) == spec_root_fields(orig));
        }
        let mut elems = root.elems;
        let mut out: Vec<(String, Value)> = Vec::new();
        while elems.len() > 0
            invariant
                spec_finish(self@) == spec_root_fields(orig),
                orig.len() == out@.len() + elems@.len(),
                forall|j: int|
                    0 <= j < elems@.len() ==> #[trigger] elems@[j]@ == orig[out@.len() + j],
                forall|j: int| 0 <= j < out@.len() ==> orig[j] is Field,
                forall|j: int|
                    0 <= j < out@.len() ==> #[trigger] out@[j].0@ == orig[j]->Field_0
                        && out@[j].1@ == orig[j]->Field_1,
            decreases elems@.len(),
        {
            let ghost pre = elems@;
            let ghost done = out@.len() as int;
            let e = elems.remove(0);
            proof {
                assert(elems@ =~= pre.drop_first());
                assert(e@ == orig[done]);
            }
            match e {
                Element::Field(k, v) => {
                    out.push((k, v));
                },
                Element::Lone(_) => {
                    proof {
                        assert(!(orig[done] is Field));
                        assert(spec_root_fields(orig) is None);
                    }
                    return None;
                },
            }
        }
        proof {
            assert(forall|j: int| 0 <= j < orig.len() ==> orig[j] is Field);
            let m2 = orig.map_values(|e: ElemV| (e->Field_0, e->Field_1));
            assert(out@.map_values(|p: (String, Value)| (p.0@, p.1@)) =~~= m2);
        }
        Some(out)
    }

    /// Closes the top group on `}`.
    fn close_frame(&mut self)
        requires
            old(self).wf(),
            !old(self).err,
        ensures
            final(self).wf(),
            final(self).comment == old(self).comment,
            match spec_close(frames_view(old(self).stack@)) {
                None => final(self).err,
                Some(s2) => !final(self).err && frames_view(final(self).stack@) == s2
                    && final(self).mode == old(self).mode,
            },
    {
        if self.stack.len() < 2 {
            self.err = true;
            return ;
        }
        let top_opt = self.stack.pop();
        let top = match top_opt {
            Some(t) => t,
            None => {
                self.err = true;
                return ;
            },
        };
        let ghost old_stack = frames_view(self.stack@).push(top@);
        proof {
            assert(old_stack =~~= frames_view(old(self).stack@));
            assert(frames_view(old(self).stack@).last() == top@);
            assert(frames_view(old(self).stack@).drop_last() =~~= frames_view(self.stack@));
        }
        let Frame { header, key, elems } = top;
        if key.is_some() {
            self.err = true;
            return ;
        }
        let v0 = match group_value(elems) {
            Some(v0) => v0,
            None => {
                self.err = true;
                return ;
            },
        };
        let ghost v0_view = v0@;
        let v = match header {
            Some(h) => {
                let ghost h_view = h@;
                let mut items: Vec<Value> = Vec::new();
                items.push(Value::Scalar(h));
                items.push(v0);
                let r = Value::Array(items);
                proof {
                    assert(r@ is Array);
                    assert(items@.len() == 2);
                    assert(items@[0]@ == ValueV::Scalar(h_view));
                    assert(items@[1]@ == v0_view);
                    assert(r@->Array_0.len() == 2);
                    assert(r@->Array_0[0] == ValueV::Scalar(h_view));
                    assert(r@->Array_0[1] == v0_view);
                    assert(r@->Array_0 =~~= seq![ValueV::Scalar(h_view), v0_view]);
                    assert(r@ == spec_wrap_header(Some(h_view), v0_view));
                }
                r
            },
            None => v0,
        };
        proof {
            assert(v@ == spec_wrap_header(old_stack.last().header, v0_view));
        }
        self.commit_value(v);
    }
}

/// The value a finished group denotes; `None` when lone values and fields
/// are mixed in one group.
fn group_value(elems: Vec<Element>) -> (r: Option<Value>)
    ensures
        match spec_group_value(elems@.map_values(|e: Element| e@)) {
            None => r is None,
            Some(v) => r is Some && r->0@ == v,
        },
{
    let ghost orig = elems@.map_values(|e: Element| e@);
    if elems.len() == 0 {
        return Some(Value::Absent);
    }
    let mut all_fields = true;
    let mut all_lones = true;
    let mut i: usize = 0;
    while i < elems.len()
        invariant
            i <= elems@.len(),
            orig == elems@.map_values(|e: Element| e@),
            all_fields == forall|j: int| 0 <= j < i ==> orig[j] is Field,
            all_lones == forall|j: int| 0 <= j < i ==> orig[j] is Lone,
        decreases elems@.len() - i,
    {
        match &elems[i] {
            Element::Field(_, _) => {
                proof {
                    assert(orig[i as int] is Field);
                }
                all_lones = false;
            },
            Element::Lone(_) => {
                proof {
                    assert(orig[i as int] is Lone);
                }
                all_fields = false;
            },
        }
        i = i + 1;
    }
    if all_fields {
        let mut elems = elems;
        let mut out: Vec<ObjField> = Vec::new();
        while elems.len() > 0
            invariant
                orig.len() == out@.len() + elems@.len(),
                forall|j: int| 0 <= j < orig.len() ==> orig[j] is Field,
                forall|j: int|
                    0 <= j < elems@.len() ==> #[trigger] elems@[j]@ == orig[out@.len() + j],
                forall|j: int|
                    0 <= j < out@.len() ==> #[trigger] out@[j].key@ == orig[j]->Field_0
                        && out@[j].val@ == orig[j]->Field_1,
            decreases elems@.len(),
        {
            let ghost pre = elems@;
            let ghost done = out@.len() as int;
            let e = elems.remove(0);
            proof {
                assert(elems@ =~= pre.drop_first());
                assert(e@ == orig[done]);
            }
            match e {
                Element::Field(k, v) => {
                    out.push(ObjField { key: k, val: v });
                },
                Element::Lone(_) => {
                    proof {
                        assert(false);
                    }
                },
            }
        }
        let ghost out_view = out@;
        let r = Value::Object(out);
        proof {
            let m = orig.map_values(|e: ElemV| (FieldV { key: e->Field_0, val: e->Field_1 }));
            let got = r@->Object_0;
            assert(got.len() == m.len());
            assert forall|j: int| 0 <= j < m.len() implies got[j] == m[j] by {
                assert(got[j] == out_view[j]@);
                assert(out_view[j].key@ == orig[j]->Field_0);
                assert(out_view[j].val@ == orig[j]->Field_1);
            }
            assert(got =~~= m);
            assert(r@ =~~= ValueV::Object(m));
        }
        Some(r)
    } else if all_lones {
        let mut elems = elems;
        let mut out: Vec<Value> = Vec::new();
        while elems.len() > 0
            invariant
                orig.len() == out@.len() + elems@.len(),
                forall|j: int| 0 <= j < orig.len() ==> orig[j] is Lone,
                forall|j: int|
                    0 <= j < elems@.len() ==> #[trigger] elems@[j]@ == orig[out@.len() + j],
                forall|j: int| 0 <= j < out@.len() ==> #[trigger] out@[j]@ == orig[j]->Lone_0,
            decreases elems@.len(),
        {
            let ghost pre = elems@;
            let ghost done = out@.len() as int;
            let e = elems.remove(0);
            proof {
                assert(elems@ =~= pre.drop_first());
                assert(e@ == orig[done]);
            }
            match e {
                Element::Lone(v) => {
                    out.push(v);
                },
                Element::Field(_, _) => {
                    proof {
                        assert(false);
                    }
                },
            }
        }
        let ghost out_view = out@;
        let r = Value::Array(out);
        proof {
            let m = orig.map_values(|e: ElemV| e->Lone_0);
            let got = r@->Array_0;
            assert(got.len() == m.len());
            assert forall|j: int| 0 <= j < m.len() implies got[j] == m[j] by {
                assert(got[j] == out_view[j]@);
                assert(out_view[j]@ == orig[j]->Lone_0);
            }
            assert(got =~~= m);
            assert(r@ =~~= ValueV::Array(m));
        }
        Some(r)
    } else {
        proof {
            assert(spec_group_value(orig) is None);
        }
        None
    }
}

/// Reads a whole text into its file-level `key = value` pairs, or `None`
/// on a structural error (unbalanced braces, an unterminated quote, a
/// value without a key at file level, or a group mixing keyed and lone
/// elements).
pub fn parse_root_fields(text: &str) -> (r: Option<Vec<(String, Value)>>)
    ensures
        match spec_parse_text(text@) {
            None => r is None,
            Some(fs) => r is Some && r->0@.map_values(|p: (String, Value)| (p.0@, p.1@)) == fs,
        },
{
    let mut p = ParadoxParser::new();
    let n = text.unicode_len();
    let mut i: usize = 0;
    while i < n
        invariant
            p.wf(),
            n == text@.len(),
            i <= n,
            p@ == spec_run(spec_init(), text@.take(i as int)),
        decreases n - i,
    {
        let c = text.get_char(i);
        p.step(c);
        proof {
            assert(text@.take(i + 1 as int) =~= text@.take(i as int).push(text@[i as int]));
            lemma_run_snoc(spec_init(), text@.take(i as int), text@[i as int]);
        }
        i = i + 1;
    }
    proof {
        assert(text@.take(n as int) =~= text@);
    }
    p.finish()
}

} // verus!
