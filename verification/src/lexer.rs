use vstd::prelude::*;
use vstd::std_specs::iter::IteratorSpec;
use crate::insns::str_eq;

verus! {

/// The characters of a string
pub(crate) open spec fn chars_of(s: &str) -> Seq<char> {
    s@
}

/// The characters of a string, as a vector
pub(crate) fn str_chars(s: &str) -> (r: Vec<char>)
    ensures
        r@ == s@,
{
    broadcast use vstd::string::axiom_spec_iter;
    let mut out: Vec<char> = Vec::new();
    let mut it = s.chars();
    loop
        invariant
            out@ + IteratorSpec::remaining(&it) == s@,
            IteratorSpec::decrease(&it) is Some,
        ensures
            out@ == s@,
        decreases IteratorSpec::decrease(&it)->0,
    {
        let ghost before = IteratorSpec::remaining(&it);
        match it.next() {
            Some(c) => {
                out.push(c);
            }
            None => {
                assert(before.len() == 0);
                assert(out@ =~= s@);
                break;
            }
        }
    }
    out
}

/// `String::from_iter`: the string made of a sequence of characters,
/// one after the other
#[verifier::external_body]
pub(crate) fn string_from_chars(chars: &[char]) -> (r: String)
    ensures
        r@ == chars@,
{
    String::from_iter(chars)
}

/// A parse error, with the position it was found at
#[derive(Debug)]
pub struct ParseError {
    pub msg: String,
    pub pos: SrcPos,
}

impl ParseError {
    pub fn new(input: &Lexer, msg: &str) -> (r: ParseError)
        requires
            input.wf(),
        ensures
            r.msg@ == msg@,
            r.pos == input.spec_pos(),
    {
        ParseError { msg: msg.to_owned(), pos: input.get_pos() }
    }

    /// Parse error with just an error message and position
    pub fn with_pos<T>(msg: &str, pos: &SrcPos) -> (r: Result<T, ParseError>)
        ensures
            r matches Err(e) && e.msg@ == msg@ && e.pos == *pos,
    {
        Err(ParseError { msg: msg.to_owned(), pos: *pos })
    }
}

/// Registry of source file names, which gives each a unique id
pub struct FileIdMap {
    // Names in order of registration: a name's id is its index
    id_to_name: Vec<String>,
}

/// Number of distinct source files a program can be built from
pub const MAX_FILES: u32 = 0x4_0000;

impl FileIdMap {
    pub closed spec fn names(self) -> Seq<Seq<char>> {
        self.id_to_name@.map_values(|s: String| s@)
    }

    /// Whether no name is registered twice
    pub open spec fn wf(self) -> bool {
        &&& self.names().len() <= MAX_FILES
        &&& forall|i: int, j: int| 0 <= i < j < self.names().len() ==> self.names()[i] != self.names()[j]
    }

    pub fn new() -> (r: FileIdMap)
        ensures
            r.wf(),
            r.names() == Seq::<Seq<char>>::empty(),
    {
        let r = FileIdMap { id_to_name: Vec::new() };
        assert(r.names() =~= Seq::<Seq<char>>::empty());
        r
    }

    pub fn len(&self) -> (r: usize)
        ensures
            r == self.names().len(),
    {
        self.id_to_name.len()
    }

    /// Get a unique id for a given file name, registering it if it is new
    pub fn get_file_id(&mut self, name: &str) -> (r: u32)
        requires
            old(self).wf(),
            old(self).names().contains(name@) || old(self).names().len() < MAX_FILES,
        ensures
            final(self).wf(),
            old(self).names().contains(name@) ==> final(self).names() == old(self).names(),
            !old(self).names().contains(name@) ==> final(self).names() == old(self).names().push(name@),
            r < final(self).names().len(),
            final(self).names()[r as int] == name@,
    {
        let n = self.id_to_name.len();
        let mut i: usize = 0;
        while i < n
            invariant
                n == self.id_to_name@.len(),
                self.id_to_name@ == old(self).id_to_name@,
                old(self).wf(),
                0 <= i <= n,
                forall|j: int| 0 <= j < i ==> self.names()[j] != name@,
            decreases n - i,
        {
            if str_eq(self.id_to_name[i].as_str(), name) {
                assert(old(self).names().contains(name@)) by {
                    assert(old(self).names()[i as int] == name@);
                }
                return i as u32;
            }
            i = i + 1;
        }
        proof {
            assert(!old(self).names().contains(name@)) by {
                if old(self).names().contains(name@) {
                    let k = choose|k: int| 0 <= k < old(self).names().len() && old(self).names()[k] == name@;
                    assert(self.names()[k] != name@);
                }
            }
        }
        self.id_to_name.push(name.to_owned());
        assert(self.names() =~= old(self).names().push(name@));
        n as u32
    }

    /// Get the file name associated with a unique id
    pub fn name_from_id(&self, id: u32) -> (r: String)
        requires
            id < self.names().len(),
        ensures
            r@ == self.names()[id as int],
    {
        self.id_to_name[id as usize].clone()
    }
}

/// Get the file name associated with a unique id
pub fn name_from_id(files: &FileIdMap, id: u32) -> (r: String)
    requires
        id < files.names().len(),
    ensures
        r@ == files.names()[id as int],
{
    files.name_from_id(id)
}

/// Highest column a position can represent. Positions further right on
/// the same line all report this column
pub const MAX_COL_NO: u32 = 0x3FFF;

/// Highest line a position can represent
pub const MAX_LINE_NO: u32 = 0xFFFF_FFFF;

// The three fields of a position do not overlap, and each reads back
proof fn lemma_src_pos_fields(col: u64, line: u64, file: u64)
    requires
        col <= 0x3FFF,
        line <= 0xFFFF_FFFF,
        file < 0x4_0000,
    ensures
        ((file << 46) | (line << 14) | col) >> 46 == file,
        (((((file << 46) | (line << 14) | col) >> 14) as u32) & 0xFFFF_FFFF) as u64 == line,
        ((((file << 46) | (line << 14) | col) as u32) & 0x3FFF) as u64 == col,
{
    assert(((file << 46) | (line << 14) | col) >> 46 == file
        && (((((file << 46) | (line << 14) | col) >> 14) as u32) & 0xFFFF_FFFF) as u64 == line
        && ((((file << 46) | (line << 14) | col) as u32) & 0x3FFF) as u64 == col) by (bit_vector)
        requires
            col <= 0x3FFF,
            line <= 0xFFFF_FFFF,
            file < 0x4_0000;
}

/// A position reads back the file and line it was made with, and its
/// column clamped to `MAX_COL_NO`
pub proof fn law_src_pos_round_trip(file_id: u32, line_no: u32, col_no: u32)
    requires
        file_id < MAX_FILES,
    ensures
        SrcPos::spec_new(file_id, line_no, col_no).spec_file_id() == file_id,
        SrcPos::spec_new(file_id, line_no, col_no).spec_line_no() == line_no,
        SrcPos::spec_new(file_id, line_no, col_no).spec_col_no()
            == if col_no <= MAX_COL_NO { col_no } else { MAX_COL_NO },
{
    let col: u32 = if col_no < MAX_COL_NO { col_no } else { MAX_COL_NO };
    lemma_src_pos_fields(col as u64, line_no as u64, file_id as u64);
}

proof fn lemma_src_pos_bounds(w: u64)
    ensures
        w >> 46 < 0x4_0000,
        ((w as u32) & 0x3FFF) <= 0x3FFF,
{
    assert(w >> 46 < 0x4_0000 && ((w as u32) & 0x3FFF) <= 0x3FFF) by (bit_vector);
}

/// Source position, packed into a single 64-bit word.
///
/// A column past `MAX_COL_NO` is clamped rather than rejected, so a file
/// with one very long line still compiles and still reports the right
/// line.
///
/// Layout: col_no in bits 0..14, line_no in 14..46, file_id in 46..64
#[derive(Copy, Clone, Default, Eq, PartialEq, Debug, Structural)]
pub struct SrcPos(pub u64);

impl SrcPos {
    /// The position `new` builds
    pub open spec fn spec_new(file_id: u32, line_no: u32, col_no: u32) -> SrcPos {
        SrcPos((((file_id as u64) << 46) | ((line_no as u64) << 14)
            | ((if col_no < MAX_COL_NO { col_no } else { MAX_COL_NO }) as u64)) as u64)
    }

    pub open spec fn spec_file_id(self) -> u32 {
        (self.0 >> 46) as u32
    }

    pub open spec fn spec_line_no(self) -> u32 {
        ((self.0 >> 14) as u32) & MAX_LINE_NO
    }

    pub open spec fn spec_col_no(self) -> u32 {
        (self.0 as u32) & MAX_COL_NO
    }

    /// Running out of file ids is a hard limit rather than something to
    /// degrade: a clamped id would name the wrong file
    pub fn new(file_id: u32, line_no: u32, col_no: u32) -> (r: SrcPos)
        requires
            file_id < MAX_FILES,
        ensures
            r == SrcPos::spec_new(file_id, line_no, col_no),
            r.spec_file_id() == file_id,
            r.spec_line_no() == line_no,
            r.spec_col_no() == if col_no <= MAX_COL_NO { col_no } else { MAX_COL_NO },
    {
        let col_no = if col_no < MAX_COL_NO { col_no } else { MAX_COL_NO } as u64;
        let line_no = line_no as u64;
        proof { lemma_src_pos_fields(col_no, line_no, file_id as u64); }
        SrcPos(((file_id as u64) << 46) | (line_no << 14) | col_no)
    }

    pub fn file_id(&self) -> (r: u32)
        ensures
            r == self.spec_file_id(),
            r < MAX_FILES,
    {
        proof { lemma_src_pos_bounds(self.0); }
        (self.0 >> 46) as u32
    }

    pub fn line_no(&self) -> (r: u32)
        ensures
            r == self.spec_line_no(),
    {
        ((self.0 >> 14) as u32) & MAX_LINE_NO
    }

    pub fn col_no(&self) -> (r: u32)
        ensures
            r == self.spec_col_no(),
            r <= MAX_COL_NO,
    {
        proof { lemma_src_pos_bounds(self.0); }
        (self.0 as u32) & MAX_COL_NO
    }

    pub fn get_src_name(&self, files: &FileIdMap) -> (r: String)
        requires
            self.spec_file_id() < files.names().len(),
        ensures
            r@ == files.names()[self.spec_file_id() as int],
    {
        name_from_id(files, self.file_id())
    }
}

/// Check if a character can be the start of an identifier
pub open spec fn spec_is_ident_start(ch: char) -> bool {
    ('a' <= ch <= 'z') || ('A' <= ch <= 'Z') || ch == '_'
}

/// Check if a character can be part of an identifier
pub open spec fn spec_is_ident_ch(ch: char) -> bool {
    spec_is_ident_start(ch) || ('0' <= ch <= '9')
}

/// ASCII whitespace: space, tab, line feed, form feed, carriage return
pub open spec fn spec_is_ascii_ws(ch: char) -> bool {
    ch == ' ' || ch == '\t' || ch == '\n' || ch == '\x0C' || ch == '\r'
}

pub open spec fn spec_is_digit(ch: char) -> bool {
    '0' <= ch <= '9'
}

/// Check if a character can be the start of an identifier
pub fn is_ident_start(ch: char) -> (r: bool)
    ensures
        r == spec_is_ident_start(ch),
{
    ('a' <= ch && ch <= 'z') || ('A' <= ch && ch <= 'Z') || ch == '_'
}

/// Check if a character can be part of an identifier
pub fn is_ident_ch(ch: char) -> (r: bool)
    ensures
        r == spec_is_ident_ch(ch),
{
    is_ident_start(ch) || ('0' <= ch && ch <= '9')
}

fn is_ascii_ws(ch: char) -> (r: bool)
    ensures
        r == spec_is_ascii_ws(ch),
{
    ch == ' ' || ch == '\t' || ch == '\n' || ch == '\x0C' || ch == '\r'
}

fn is_digit(ch: char) -> (r: bool)
    ensures
        r == spec_is_digit(ch),
{
    '0' <= ch && ch <= '9'
}

/// Value of a character as a digit in a given radix, as `char::to_digit`
/// reads it
pub open spec fn spec_to_digit(ch: char, radix: u32) -> Option<u32> {
    let v: int = if '0' <= ch <= '9' {
        ch as int - '0' as int
    } else if 'a' <= ch <= 'z' {
        ch as int - 'a' as int + 10
    } else if 'A' <= ch <= 'Z' {
        ch as int - 'A' as int + 10
    } else {
        99
    };
    if v < radix { Some(v as u32) } else { None }
}

/// Value of a character as a digit in a given radix, if it is one
pub fn to_digit(ch: char, radix: u32) -> (r: Option<u32>)
    requires
        2 <= radix <= 36,
    ensures
        r == spec_to_digit(ch, radix),
{
    let v: u32 = if '0' <= ch && ch <= '9' {
        (ch as u32) - ('0' as u32)
    } else if 'a' <= ch && ch <= 'z' {
        (ch as u32) - ('a' as u32) + 10
    } else if 'A' <= ch && ch <= 'Z' {
        (ch as u32) - ('A' as u32) + 10
    } else {
        99
    };
    if v < radix { Some(v) } else { None }
}

/// Character at a position of the input, reading past the end as NUL
pub open spec fn char_at(input: Seq<char>, i: int) -> char {
    if 0 <= i < input.len() { input[i] } else { '\0' }
}

/// Line and column reached from a given start by consuming the
/// characters at positions `a..b`: a newline moves to the first column
/// of the next line, anything else one column right
pub open spec fn pos_after(input: Seq<char>, line: int, col: int, a: int, b: int) -> (int, int)
    decreases b - a,
{
    if b <= a {
        (line, col)
    } else {
        let (l, c) = pos_after(input, line, col, a, b - 1);
        if char_at(input, b - 1) == '\n' { (l + 1, 1) } else { (l, c + 1) }
    }
}

proof fn lemma_pos_after_bounds(input: Seq<char>, a: int, b: int)
    requires
        a <= b,
    ensures
        pos_after(input, 1, 1, a, b).0 >= 1,
        pos_after(input, 1, 1, a, b).1 >= 1,
        pos_after(input, 1, 1, a, b).0 + pos_after(input, 1, 1, a, b).1 <= b - a + 2,
    decreases b - a,
{
    if b > a {
        lemma_pos_after_bounds(input, a, b - 1);
    }
}

/// Furthest position a lexer reaches. Lines and columns are counted in
/// 32-bit numbers, and each character consumed adds one to one of them,
/// so past this they would no longer fit
pub const MAX_POS: usize = 0xFFFF_FFF0;

/// Largest input a lexer takes: its positions, and a few past its end
/// that a lookahead may consume, have to be counted in 32-bit lines and
/// columns
pub const MAX_INPUT_LEN: usize = 0xFFFF_FF00;

/// A lexer over a string of characters, with the position it has
/// reached
#[derive(Debug)]
pub struct Lexer {
    // Lexer string to be parsed
    input: Vec<char>,

    // Current index in the input string
    idx: usize,

    // Source file id
    pub file_id: u32,

    // Name of the source file
    src_name: String,

    // Current line number
    pub line_no: u32,

    // Current column number
    pub col_no: u32,
}

impl Clone for Lexer {
    fn clone(&self) -> (r: Lexer)
        ensures
            r.spec_input() == self.spec_input(),
            r.spec_idx() == self.spec_idx(),
            r.spec_file_id() == self.spec_file_id(),
            r.spec_line_no() == self.spec_line_no(),
            r.spec_col_no() == self.spec_col_no(),
            r.spec_src_name() == self.spec_src_name(),
            self.wf() ==> r.wf(),
    {
        Lexer {
            input: self.input.clone(),
            idx: self.idx,
            file_id: self.file_id,
            src_name: self.src_name.clone(),
            line_no: self.line_no,
            col_no: self.col_no,
        }
    }
}

impl Lexer {
    pub closed spec fn spec_input(self) -> Seq<char> {
        self.input@
    }

    pub closed spec fn spec_idx(self) -> int {
        self.idx as int
    }

    pub closed spec fn spec_file_id(self) -> u32 {
        self.file_id
    }

    pub closed spec fn spec_src_name(self) -> Seq<char> {
        self.src_name@
    }

    pub closed spec fn spec_line_no(self) -> u32 {
        self.line_no
    }

    pub closed spec fn spec_col_no(self) -> u32 {
        self.col_no
    }

    /// Character at a given distance ahead
    pub open spec fn spec_peek_at(self, k: int) -> char {
        char_at(self.spec_input(), self.spec_idx() + k)
    }

    pub open spec fn spec_eof(self) -> bool {
        self.spec_idx() >= self.spec_input().len()
    }

    /// The line and column always follow from the characters consumed
    pub closed spec fn wf(self) -> bool {
        &&& self.input@.len() <= MAX_INPUT_LEN
        &&& self.idx <= MAX_POS
        &&& self.file_id < MAX_FILES
        &&& (self.line_no as int, self.col_no as int) == pos_after(self.input@, 1, 1, 0, self.idx as int)
    }

    pub open spec fn spec_line_col(self) -> (int, int) {
        pos_after(self.spec_input(), 1, 1, 0, self.spec_idx())
    }

    /// Same input and file, position possibly moved
    pub open spec fn same_source(self, other: Lexer) -> bool {
        &&& self.spec_input() == other.spec_input()
        &&& self.spec_file_id() == other.spec_file_id()
        &&& self.spec_src_name() == other.spec_src_name()
    }

    pub proof fn lemma_wf(self)
        requires
            self.wf(),
        ensures
            self.spec_input().len() <= MAX_INPUT_LEN,
            0 <= self.spec_idx() <= MAX_POS,
            self.spec_file_id() < MAX_FILES,
            self.spec_line_no() == self.spec_line_col().0,
            self.spec_col_no() == self.spec_line_col().1,
    {
    }

    /// A lexer at the start of a string, whose file is registered under
    /// a given name
    pub fn new(input_str: &str, src_name: &str, files: &mut FileIdMap) -> (r: Lexer)
        requires
            old(files).wf(),
            old(files).names().contains(src_name@) || old(files).names().len() < MAX_FILES,
            input_str@.len() <= MAX_INPUT_LEN,
        ensures
            r.wf(),
            r.spec_input() == input_str@,
            r.spec_idx() == 0,
            r.spec_src_name() == src_name@,
            final(files).wf(),
            old(files).names().contains(src_name@) ==> final(files).names() == old(files).names(),
            !old(files).names().contains(src_name@) ==> final(files).names() == old(files).names().push(src_name@),
            r.spec_file_id() < final(files).names().len(),
            final(files).names()[r.spec_file_id() as int] == src_name@,
    {
        let file_id = files.get_file_id(src_name);
        Lexer { input: str_chars(input_str), file_id, src_name: src_name.to_owned(), idx: 0, line_no: 1, col_no: 1 }
    }

    /// Name of the source the lexer reads
    pub fn get_src_name(&self) -> (r: String)
        ensures
            r@ == self.spec_src_name(),
    {
        self.src_name.clone()
    }

    pub fn get_pos(&self) -> (r: SrcPos)
        requires
            self.wf(),
        ensures
            r == self.spec_pos(),
            r.spec_file_id() == self.spec_file_id(),
            r.spec_line_no() == self.spec_line_no(),
            r.spec_col_no() == if self.spec_col_no() <= MAX_COL_NO { self.spec_col_no() } else { MAX_COL_NO },
    {
        SrcPos::new(self.file_id, self.line_no, self.col_no)
    }

    /// Test if the end of the input has been reached
    pub fn eof(&self) -> (r: bool)
        ensures
            r == self.spec_eof(),
    {
        self.idx >= self.input.len()
    }

    /// Peek at a character from the input
    pub fn peek_ch(&self) -> (r: char)
        ensures
            r == self.spec_peek_at(0),
    {
        if self.idx >= self.input.len() {
            return '\0';
        }
        self.input[self.idx]
    }

    /// Peek at a character further ahead in the input
    pub fn peek_ch_at(&self, offset: usize) -> (r: char)
        requires
            self.wf(),
            offset <= MAX_INPUT_LEN,
        ensures
            r == self.spec_peek_at(offset as int),
    {
        if self.idx >= self.input.len() || offset >= self.input.len() - self.idx {
            return '\0';
        }
        self.input[self.idx + offset]
    }

    /// The state after consuming one more character
    pub open spec fn ate(self, new: Lexer) -> bool {
        &&& new.wf()
        &&& new.same_source(self)
        &&& new.spec_idx() == self.spec_idx() + 1
    }

    /// Consume a character from the input
    pub fn eat_ch(&mut self) -> (r: char)
        requires
            old(self).wf(),
            old(self).spec_idx() < MAX_POS,
        ensures
            r == old(self).spec_peek_at(0),
            old(self).ate(*final(self)),
    {
        let ch = self.peek_ch();
        proof {
            lemma_pos_after_bounds(self.input@, 0, self.idx as int + 1);
        }

        // Move to the next char
        self.idx += 1;

        if ch == '\n' {
            self.line_no += 1;
            self.col_no = 1;
        } else {
            self.col_no += 1;
        }

        ch
    }

    /// Match a single character in the input, no preceding whitespace allowed
    pub fn match_char(&mut self, ch: char) -> (r: bool)
        requires
            old(self).wf(),
            old(self).spec_idx() < MAX_POS,
        ensures
            r == (old(self).spec_peek_at(0) == ch),
            r ==> old(self).ate(*final(self)),
            !r ==> *final(self) == *old(self),
    {
        if self.peek_ch() == ch {
            self.eat_ch();
            return true;
        }
        false
    }

    /// Whether a sequence of characters comes next
    pub open spec fn spec_peek_chars(self, chars: Seq<char>) -> bool {
        &&& self.spec_idx() + chars.len() <= self.spec_input().len()
        &&& self.spec_input().subrange(self.spec_idx(), self.spec_idx() + chars.len()) == chars
    }

    /// Peek for a sequence of characters
    pub fn peek_chars(&mut self, chars: &[char]) -> (r: bool)
        requires
            old(self).wf(),
        ensures
            *final(self) == *old(self),
            r == old(self).spec_peek_chars(chars@),
    {
        if chars.len() > self.input.len() || self.idx > self.input.len() - chars.len() {
            return false;
        }
        let end_pos = self.idx + chars.len();

        // Compare the characters to match
        let mut i: usize = 0;
        while i < chars.len()
            invariant
                0 <= i <= chars@.len(),
                end_pos == self.idx + chars@.len(),
                end_pos <= self.input@.len(),
                forall|j: int| 0 <= j < i ==> chars@[j] == self.input@[self.idx + j],
            decreases chars@.len() - i,
        {
            if chars[i] != self.input[self.idx + i] {
                return false;
            }
            i = i + 1;
        }
        assert(self.input@.subrange(self.idx as int, end_pos as int) =~= chars@);
        true
    }

    /// Match characters in the input, no preceding whitespace allowed
    pub fn match_chars(&mut self, chars: &[char]) -> (r: bool)
        requires
            old(self).wf(),
        ensures
            r == old(self).spec_peek_chars(chars@),
            r ==> final(self).wf() && final(self).same_source(*old(self))
                && final(self).spec_idx() == old(self).spec_idx() + chars@.len(),
            !r ==> *final(self) == *old(self),
    {
        if !self.peek_chars(chars) {
            return false;
        }

        // Consume the matched characters
        let ghost start = self.idx;
        let mut i: usize = 0;
        while i < chars.len()
            invariant
                0 <= i <= chars@.len(),
                self.wf(),
                self.same_source(*old(self)),
                self.spec_idx() == start + i,
                start + chars@.len() <= self.spec_input().len(),
            decreases chars@.len() - i,
        {
            self.eat_ch();
            i = i + 1;
        }

        true
    }
}

/// Position past the body of a single-line comment starting at `i`:
/// past the newline that ends it, or at the end of the input
pub open spec fn line_comment_end(s: Seq<char>, i: int) -> int
    decreases s.len() - i,
{
    if i >= s.len() {
        i
    } else if s[i] == '\n' {
        i + 1
    } else {
        line_comment_end(s, i + 1)
    }
}

/// Position past the end of a multi-line comment whose body starts at
/// `i`, nested `depth` deep, or None if the input ends first
pub open spec fn multi_comment_end(s: Seq<char>, i: int, depth: int) -> Option<int>
    decreases s.len() - i,
{
    if i >= s.len() {
        None
    } else if s[i] == '/' && i + 1 < s.len() && s[i + 1] == '*' {
        multi_comment_end(s, i + 2, depth + 1)
    } else if s[i] == '*' && i + 1 < s.len() && s[i + 1] == '/' {
        if depth <= 1 { Some(i + 2) } else { multi_comment_end(s, i + 2, depth - 1) }
    } else {
        multi_comment_end(s, i + 1, depth)
    }
}

/// Position past the whitespace and comments starting at `i`, or None if
/// a multi-line comment is left open
pub open spec fn skip_ws(s: Seq<char>, i: int) -> Option<int>
    decreases s.len() - i,
{
    if i < 0 || i >= s.len() {
        Some(i)
    } else if s[i] == '/' && i + 1 < s.len() && s[i + 1] == '/' {
        proof { lemma_line_comment_end(s, i + 2); }
        skip_ws(s, line_comment_end(s, i + 2))
    } else if s[i] == '/' && i + 1 < s.len() && s[i + 1] == '*' {
        proof { lemma_multi_comment_end(s, i + 2, 1); }
        match multi_comment_end(s, i + 2, 1) {
            Some(j) => skip_ws(s, j),
            None => None,
        }
    } else if spec_is_ascii_ws(s[i]) {
        skip_ws(s, i + 1)
    } else {
        Some(i)
    }
}

/// Two characters come next exactly when the two positions hold them
pub proof fn lemma_peek2(s: Seq<char>, i: int, a: char, b: char)
    requires
        0 <= i,
    ensures
        (i + 2 <= s.len() && s.subrange(i, i + 2) == seq![a, b]) <==> (i + 1 < s.len() && s[i] == a && s[i + 1] == b),
{
    if i + 1 < s.len() && s[i] == a && s[i + 1] == b {
        assert(s.subrange(i, i + 2) =~= seq![a, b]);
    }
    if i + 2 <= s.len() && s.subrange(i, i + 2) == seq![a, b] {
        assert(s.subrange(i, i + 2)[0] == a);
        assert(s.subrange(i, i + 2)[1] == b);
    }
}

pub proof fn lemma_line_comment_end(s: Seq<char>, i: int)
    requires
        0 <= i,
    ensures
        i <= line_comment_end(s, i),
        i < s.len() ==> line_comment_end(s, i) <= s.len(),
        i >= s.len() ==> line_comment_end(s, i) == i,
    decreases s.len() - i,
{
    if i < s.len() && s[i] != '\n' {
        lemma_line_comment_end(s, i + 1);
    }
}

pub proof fn lemma_multi_comment_end(s: Seq<char>, i: int, depth: int)
    requires
        0 <= i,
    ensures
        multi_comment_end(s, i, depth) matches Some(j) ==> i < j <= s.len(),
    decreases s.len() - i,
{
    if i < s.len() {
        if s[i] == '/' && i + 1 < s.len() && s[i + 1] == '*' {
            lemma_multi_comment_end(s, i + 2, depth + 1);
        } else if s[i] == '*' && i + 1 < s.len() && s[i + 1] == '/' {
            if depth > 1 {
                lemma_multi_comment_end(s, i + 2, depth - 1);
            }
        } else {
            lemma_multi_comment_end(s, i + 1, depth);
        }
    }
}

pub proof fn lemma_skip_ws(s: Seq<char>, i: int)
    requires
        0 <= i,
    ensures
        skip_ws(s, i) matches Some(j) ==> i <= j && (i <= s.len() ==> j <= s.len()),
        skip_ws(s, i) matches Some(j) ==> j >= s.len() || !(
            spec_is_ascii_ws(s[j])
            || (s[j] == '/' && j + 1 < s.len() && (s[j + 1] == '/' || s[j + 1] == '*'))),
    decreases s.len() - i,
{
    if i < s.len() {
        if s[i] == '/' && i + 1 < s.len() && s[i + 1] == '/' {
            lemma_line_comment_end(s, i + 2);
            lemma_skip_ws(s, line_comment_end(s, i + 2));
        } else if s[i] == '/' && i + 1 < s.len() && s[i + 1] == '*' {
            lemma_multi_comment_end(s, i + 2, 1);
            if let Some(j) = multi_comment_end(s, i + 2, 1) {
                lemma_skip_ws(s, j);
            }
        } else if spec_is_ascii_ws(s[i]) {
            lemma_skip_ws(s, i + 1);
        }
    }
}

/// End of the run of digits of a radix and underscores starting at `i`
pub open spec fn digits_end(s: Seq<char>, i: int, radix: u32) -> int
    decreases s.len() - i,
{
    if i < 0 || i >= s.len() {
        i
    } else if s[i] == '_' || spec_to_digit(s[i], radix) is Some {
        digits_end(s, i + 1, radix)
    } else {
        i
    }
}

/// Value of the digits at positions `a..b`, skipping underscores
pub open spec fn digits_value(s: Seq<char>, a: int, b: int, radix: u32) -> int
    decreases b - a,
{
    if b <= a {
        0
    } else if char_at(s, b - 1) == '_' {
        digits_value(s, a, b - 1, radix)
    } else {
        digits_value(s, a, b - 1, radix) * radix + match spec_to_digit(char_at(s, b - 1), radix) {
            Some(d) => d as int,
            None => 0,
        }
    }
}

proof fn lemma_digits_end(s: Seq<char>, i: int, radix: u32)
    requires
        0 <= i,
    ensures
        i <= digits_end(s, i, radix),
        i <= s.len() ==> digits_end(s, i, radix) <= s.len(),
        forall|k: int| i <= k < digits_end(s, i, radix) ==>
            s[k] == '_' || #[trigger] spec_to_digit(s[k], radix) is Some,
        digits_end(s, i, radix) < s.len() ==> !(s[digits_end(s, i, radix)] == '_'
            || spec_to_digit(s[digits_end(s, i, radix)], radix) is Some),
    decreases s.len() - i,
{
    if i < s.len() && (s[i] == '_' || spec_to_digit(s[i], radix) is Some) {
        lemma_digits_end(s, i + 1, radix);
    }
}

proof fn lemma_digits_value_monotonic(s: Seq<char>, a: int, b: int, c: int, radix: u32)
    requires
        a <= b <= c,
        2 <= radix,
    ensures
        0 <= digits_value(s, a, b, radix) <= digits_value(s, a, c, radix),
    decreases c - a,
{
    if c > b {
        lemma_digits_value_monotonic(s, a, b, c - 1, radix);
        let v = digits_value(s, a, c - 1, radix);
        assert(v <= v * radix) by (nonlinear_arith)
            requires v >= 0, radix >= 2;
    } else if b > a {
        lemma_digits_value_monotonic(s, a, b - 1, b - 1, radix);
        let v = digits_value(s, a, b - 1, radix);
        assert(0 <= v * radix) by (nonlinear_arith)
            requires v >= 0, radix >= 2;
    }
}

/// End of a run of decimal digits and underscores starting at `i`
pub open spec fn run_end(s: Seq<char>, i: int) -> int
    decreases s.len() - i,
{
    if 0 <= i < s.len() && (spec_is_digit(s[i]) || s[i] == '_') {
        run_end(s, i + 1)
    } else {
        i
    }
}

/// End of the digits of a number starting at `i`, which has to start
/// with a digit to be read at all
pub open spec fn read_digits_end(s: Seq<char>, i: int) -> int {
    if spec_is_digit(char_at(s, i)) { run_end(s, i) } else { i }
}

/// Past an optional sign at `i`
pub open spec fn sign_end(s: Seq<char>, i: int) -> int {
    if 0 <= i < s.len() && (s[i] == '+' || s[i] == '-') { i + 1 } else { i }
}

/// End of a numeric literal starting at `i`: a sign, digits, a
/// fraction if a digit follows the dot, and an exponent. None if an
/// exponent has no digits.
pub open spec fn numeric_end(s: Seq<char>, i: int) -> Option<int> {
    let p2 = read_digits_end(s, sign_end(s, i));
    let p3 = if char_at(s, p2) == '.' && spec_is_digit(char_at(s, p2 + 1)) {
        read_digits_end(s, p2 + 1)
    } else {
        p2
    };
    if 0 <= p3 < s.len() && (s[p3] == 'e' || s[p3] == 'E') {
        let p4 = sign_end(s, p3 + 1);
        if spec_is_digit(char_at(s, p4)) { Some(read_digits_end(s, p4)) } else { None }
    } else {
        Some(p3)
    }
}

proof fn lemma_run_end(s: Seq<char>, i: int)
    requires
        0 <= i,
    ensures
        i <= run_end(s, i),
        i <= s.len() ==> run_end(s, i) <= s.len(),
        run_end(s, i) < s.len() ==> !(spec_is_digit(s[run_end(s, i)]) || s[run_end(s, i)] == '_'),
    decreases s.len() - i,
{
    if 0 <= i < s.len() && (spec_is_digit(s[i]) || s[i] == '_') {
        lemma_run_end(s, i + 1);
    }
}

/// Characters of a string literal body starting at `i` and ending with
/// `end_ch`, with escape sequences replaced, and the position past the
/// closing character. None if the input ends first, or on an escape
/// sequence that is unknown or not hexadecimal.
pub open spec fn str_lit(s: Seq<char>, i: int, end_ch: char) -> Option<(Seq<char>, int)>
    decreases s.len() + 8 - i,
{
    if i < 0 || i >= s.len() {
        None
    } else if s[i] == end_ch {
        Some((Seq::<char>::empty(), i + 1))
    } else if s[i] == '\\' {
        let e = char_at(s, i + 1);
        let esc: Option<char> =
            if e == '\\' { Some('\\') }
            else if e == '\'' { Some('\'') }
            else if e == '"' { Some('"') }
            else if e == 't' { Some('\t') }
            else if e == 'r' { Some('\r') }
            else if e == 'n' { Some('\n') }
            else if e == '0' { Some('\0') }
            else { None };
        if esc is Some {
            match str_lit(s, i + 2, end_ch) {
                Some((rest, j)) => Some((seq![esc->0] + rest, j)),
                None => None,
            }
        } else if e == 'x' {
            match (spec_to_digit(char_at(s, i + 2), 16), spec_to_digit(char_at(s, i + 3), 16)) {
                (Some(d0), Some(d1)) => match str_lit(s, i + 4, end_ch) {
                    Some((rest, j)) => Some((seq![((d0 * 16 + d1) as u8) as char] + rest, j)),
                    None => None,
                },
                _ => None,
            }
        } else {
            None
        }
    } else {
        match str_lit(s, i + 1, end_ch) {
            Some((rest, j)) => Some((seq![s[i]] + rest, j)),
            None => None,
        }
    }
}

/// In a string literal, a hexadecimal escape `\x` followed by two
/// hexadecimal digits stands for the character whose code is sixteen
/// times the first digit plus the second: the first digit is the high
/// nibble, so `\x41` is `A`
pub proof fn law_hex_escape_high_nibble_first(s: Seq<char>, i: int, end_ch: char, h: u32, l: u32)
    requires
        0 <= i,
        i + 3 < s.len(),
        s[i] == '\\',
        s[i + 1] == 'x',
        end_ch != '\\',
        spec_to_digit(s[i + 2], 16) == Some(h),
        spec_to_digit(s[i + 3], 16) == Some(l),
        str_lit(s, i + 4, end_ch) is Some,
    ensures
        str_lit(s, i, end_ch) matches Some((v, _)) && v.len() >= 1 && v[0] as u32 == 16 * h + l,
        h < 16 && l < 16,
{
    assert(char_at(s, i + 1) == 'x');
    assert(char_at(s, i + 2) == s[i + 2]);
    assert(char_at(s, i + 3) == s[i + 3]);
    let (rest, j) = str_lit(s, i + 4, end_ch)->0;
    assert(str_lit(s, i, end_ch) == Some((seq![((h * 16 + l) as u8) as char] + rest, j)));
    assert((seq![((h * 16 + l) as u8) as char] + rest)[0] == ((h * 16 + l) as u8) as char);
    assert(h * 16 + l < 256) by (nonlinear_arith) requires h < 16, l < 16;
}

/// In a string literal, each one-letter escape stands for its character:
/// `\n` newline, `\t` tab, `\r` carriage return, `\0` the nul character,
/// and `\\`, `\'`, `\"` the character after the backslash; any other
/// character than the backslash and the closing one stands for itself
pub proof fn law_simple_escapes(s: Seq<char>, i: int, end_ch: char)
    requires
        0 <= i,
        i + 1 < s.len(),
        end_ch != '\\',
    ensures
        s[i] == '\\' && str_lit(s, i + 2, end_ch) is Some ==> {
            let e = s[i + 1];
            let c: Option<char> =
                if e == 'n' { Some('\n') }
                else if e == 't' { Some('\t') }
                else if e == 'r' { Some('\r') }
                else if e == '0' { Some('\0') }
                else if e == '\\' || e == '\'' || e == '"' { Some(e) }
                else { None };
            c is Some ==> (str_lit(s, i, end_ch) matches Some((v, j))
                && v.len() >= 1 && v[0] == c->0
                && v.drop_first() == (str_lit(s, i + 2, end_ch)->0).0
                && j == (str_lit(s, i + 2, end_ch)->0).1)
        },
        s[i] != '\\' && s[i] != end_ch && str_lit(s, i + 1, end_ch) is Some ==>
            (str_lit(s, i, end_ch) matches Some((v, j))
                && v.len() >= 1 && v[0] == s[i]
                && v.drop_first() == (str_lit(s, i + 1, end_ch)->0).0
                && j == (str_lit(s, i + 1, end_ch)->0).1),
        s[i] == end_ch ==> str_lit(s, i, end_ch) == Some((Seq::<char>::empty(), i + 1)),
{
    assert(char_at(s, i + 1) == s[i + 1]);
    if s[i] == '\\' && str_lit(s, i + 2, end_ch) is Some {
        let (rest, j) = str_lit(s, i + 2, end_ch)->0;
        let e = s[i + 1];
        if e == 'n' || e == 't' || e == 'r' || e == '0' || e == '\\' || e == '\'' || e == '"' {
            let (v, k) = str_lit(s, i, end_ch)->0;
            assert(v.drop_first() =~= rest);
        }
    }
    if s[i] != '\\' && s[i] != end_ch && str_lit(s, i + 1, end_ch) is Some {
        let (rest, j) = str_lit(s, i + 1, end_ch)->0;
        let (v, k) = str_lit(s, i, end_ch)->0;
        assert(v =~= seq![s[i]] + rest);
        assert(v.drop_first() =~= rest);
    }
}

/// End of the identifier characters starting at `i`
pub open spec fn ident_end(s: Seq<char>, i: int) -> int
    decreases s.len() - i,
{
    if 0 <= i < s.len() && spec_is_ident_ch(s[i]) { ident_end(s, i + 1) } else { i }
}

pub proof fn lemma_ident_end(s: Seq<char>, i: int)
    requires
        0 <= i,
    ensures
        i <= ident_end(s, i),
        i <= s.len() ==> ident_end(s, i) <= s.len(),
        forall|k: int| i <= k < ident_end(s, i) ==> spec_is_ident_ch(#[trigger] s[k]),
    decreases s.len() - i,
{
    if 0 <= i < s.len() && spec_is_ident_ch(s[i]) {
        lemma_ident_end(s, i + 1);
    }
}

impl Lexer {
    pub open spec fn spec_pos(self) -> SrcPos {
        SrcPos::spec_new(self.spec_file_id(), self.spec_line_no(), self.spec_col_no())
    }

    /// Whether a result is an error at the lexer's position with a given
    /// message
    pub open spec fn is_error_here<T>(self, r: Result<T, ParseError>, msg: Seq<char>) -> bool {
        r matches Err(e) && e.msg@ == msg && e.pos == self.spec_pos()
    }

    /// Position after consuming whitespace and comments, if none is left
    /// open
    pub open spec fn spec_ws_end(self) -> Option<int> {
        skip_ws(self.spec_input(), self.spec_idx())
    }

    /// Shortcut for yielding a parse error wrapped in a result type
    pub fn parse_error<T>(&self, msg: &str) -> (r: Result<T, ParseError>)
        requires
            self.wf(),
        ensures
            self.is_error_here(r, msg@),
    {
        Err(ParseError { msg: msg.to_owned(), pos: self.get_pos() })
    }

    /// Consume characters until the end of a single-line comment
    pub fn eat_comment(&mut self)
        requires
            old(self).wf(),
            old(self).spec_idx() <= old(self).spec_input().len(),
        ensures
            final(self).wf(),
            final(self).same_source(*old(self)),
            final(self).spec_idx() == line_comment_end(old(self).spec_input(), old(self).spec_idx()),
            old(self).spec_idx() <= final(self).spec_idx(),
    {
        proof { lemma_line_comment_end(self.input@, self.idx as int); }
        let ghost target = line_comment_end(self.input@, self.idx as int);
        loop
            invariant_except_break
                self.spec_idx() <= self.spec_input().len(),
                line_comment_end(self.input@, self.idx as int) == target,
            invariant
                target == line_comment_end(old(self).spec_input(), old(self).spec_idx()),
                old(self).spec_idx() <= self.spec_idx(),
                self.wf(),
                self.same_source(*old(self)),
            ensures
                self.spec_idx() == target,
            decreases self.spec_input().len() - self.spec_idx(),
        {
            // If we are at the end of the input, stop
            if self.eof() {
                break;
            }
            if self.eat_ch() == '\n' {
                break;
            }
        }
    }

    /// Consume characters until the end of a multi-line comment
    pub fn eat_multi_comment(&mut self) -> (r: Result<(), ParseError>)
        requires
            old(self).wf(),
            old(self).spec_idx() <= old(self).spec_input().len(),
        ensures
            final(self).wf(),
            final(self).same_source(*old(self)),
            final(self).spec_idx() <= final(self).spec_input().len(),
            old(self).spec_idx() <= final(self).spec_idx(),
            r is Ok <==> multi_comment_end(old(self).spec_input(), old(self).spec_idx(), 1) is Some,
            r is Ok ==> final(self).spec_idx() == multi_comment_end(old(self).spec_input(), old(self).spec_idx(), 1)->0,
            r is Err ==> final(self).is_error_here(r, "unexpected end of input inside multi-line comment"@),
            r is Err ==> final(self).spec_idx() == final(self).spec_input().len(),
    {
        let mut depth: usize = 1;
        let slash_star = ['/', '*'];
        let star_slash = ['*', '/'];

        let ghost target = multi_comment_end(old(self).spec_input(), old(self).spec_idx(), 1);
        loop
            invariant_except_break
                multi_comment_end(self.input@, self.idx as int, depth as int) == target,
            invariant
                target == multi_comment_end(old(self).spec_input(), old(self).spec_idx(), 1),
                self.wf(),
                self.same_source(*old(self)),
                self.spec_idx() <= self.spec_input().len(),
                old(self).spec_idx() <= self.spec_idx(),
                1 <= depth <= self.spec_idx() + 1,
                slash_star@ == seq!['/', '*'],
                star_slash@ == seq!['*', '/'],
            ensures
                target == Some(self.spec_idx()),
            decreases self.spec_input().len() - self.spec_idx(),
        {
            proof {
                lemma_peek2(self.input@, self.idx as int, '/', '*');
                lemma_peek2(self.input@, self.idx as int, '*', '/');
            }
            if self.eof() {
                assert(multi_comment_end(self.input@, self.idx as int, depth as int) is None);
                assert(target is None);
                let r = self.parse_error("unexpected end of input inside multi-line comment");
                return r;
            } else if self.match_chars(&slash_star) {
                depth += 1;
            } else if self.match_chars(&star_slash) {
                if depth <= 1 {
                    break;
                }
                depth -= 1;
            } else {
                self.eat_ch();
            }
        }

        Ok(())
    }

    /// Consume whitespace and comments
    pub fn eat_ws(&mut self) -> (r: Result<(), ParseError>)
        requires
            old(self).wf(),
            old(self).spec_idx() <= old(self).spec_input().len(),
        ensures
            final(self).wf(),
            final(self).same_source(*old(self)),
            final(self).spec_idx() <= final(self).spec_input().len(),
            old(self).spec_idx() <= final(self).spec_idx(),
            r is Ok <==> old(self).spec_ws_end() is Some,
            r is Ok ==> final(self).spec_idx() == old(self).spec_ws_end()->0,
            r is Ok ==> final(self).spec_ws_end() == Some(final(self).spec_idx()),
            r is Err ==> final(self).is_error_here(r, "unexpected end of input inside multi-line comment"@),
    {
        let slash_slash = ['/', '/'];
        let slash_star = ['/', '*'];
        proof { lemma_skip_ws(self.input@, self.idx as int); }

        loop
            invariant
                self.wf(),
                self.same_source(*old(self)),
                self.spec_idx() <= self.spec_input().len(),
                old(self).spec_idx() <= self.spec_idx(),
                slash_slash@ == seq!['/', '/'],
                slash_star@ == seq!['/', '*'],
                skip_ws(self.input@, self.idx as int) == skip_ws(old(self).input@, old(self).idx as int),
            ensures
                skip_ws(self.input@, self.idx as int) == Some(self.idx as int),
            decreases self.spec_input().len() - self.spec_idx(),
        {
            // If we are at the end of the input, stop
            if self.eof() {
                break;
            }
            proof {
                lemma_peek2(self.input@, self.idx as int, '/', '/');
                lemma_peek2(self.input@, self.idx as int, '/', '*');
            }

            // Single-line comment
            if self.match_chars(&slash_slash) {
                proof { lemma_line_comment_end(self.input@, self.idx as int); }
                self.eat_comment();
                continue;
            }

            // Multi-line comment
            if self.match_chars(&slash_star) {
                proof { lemma_multi_comment_end(self.input@, self.idx as int, 1); }
                self.eat_multi_comment()?;
                continue;
            }

            let ch = self.peek_ch();

            // Consume ASCII whitespace characters
            // Explicitly reject non-ASCII whitespace
            if is_ascii_ws(ch) {
                self.eat_ch();
                continue;
            }

            // This isn't whitespace, stop
            break;
        }

        Ok(())
    }
}


/// Whether the characters `t` occur in `s` at position `j`
pub open spec fn occurs_at(s: Seq<char>, j: int, t: Seq<char>) -> bool {
    &&& 0 <= j
    &&& j + t.len() <= s.len()
    &&& s.subrange(j, j + t.len()) == t
}

/// Whether a keyword occurs at position `j`, not followed by a character
/// that would make it part of a longer identifier
pub open spec fn keyword_at(s: Seq<char>, j: int, t: Seq<char>) -> bool {
    &&& occurs_at(s, j, t)
    &&& !(j + t.len() < s.len() && spec_is_ident_ch(s[j + t.len()]))
}

/// The characters of a sequence with the underscores left out
pub open spec fn without_underscores(t: Seq<char>) -> Seq<char>
    decreases t.len(),
{
    if t.len() == 0 {
        t
    } else if t.last() == '_' {
        without_underscores(t.drop_last())
    } else {
        without_underscores(t.drop_last()).push(t.last())
    }
}

proof fn lemma_str_lit(s: Seq<char>, i: int, end_ch: char)
    requires
        0 <= i,
    ensures
        str_lit(s, i, end_ch) matches Some((_, j)) ==> i < j <= s.len(),
    decreases s.len() + 8 - i,
{
    if 0 <= i < s.len() && s[i] != end_ch {
        if s[i] == '\\' {
            lemma_str_lit(s, i + 2, end_ch);
            lemma_str_lit(s, i + 4, end_ch);
        } else {
            lemma_str_lit(s, i + 1, end_ch);
        }
    }
}

/// A message made of three parts
pub fn concat_msg(a: &str, b: &str, c: &str) -> (r: String)
    ensures
        r@ == a@ + b@ + c@,
{
    let mut chars = str_chars(a);
    let mut bc = str_chars(b);
    let mut cc = str_chars(c);
    chars.append(&mut bc);
    chars.append(&mut cc);
    string_from_chars(chars.as_slice())
}

/// Message of the error an unterminated multi-line comment gives
pub open spec fn msg_open_comment() -> Seq<char> {
    "unexpected end of input inside multi-line comment"@
}

impl Lexer {
    /// Match a string in the input, ignoring preceding whitespace
    /// Do not use this method to match a keyword which could be
    /// an identifier.
    pub fn match_token(&mut self, token: &str) -> (r: Result<bool, ParseError>)
        requires
            old(self).wf(),
            old(self).spec_idx() <= old(self).spec_input().len(),
        ensures
            final(self).wf(),
            final(self).same_source(*old(self)),
            old(self).spec_idx() <= final(self).spec_idx() <= final(self).spec_input().len(),
            r is Ok <==> old(self).spec_ws_end() is Some,
            r matches Ok(b) ==> {
                let j = old(self).spec_ws_end()->0;
                &&& b == occurs_at(old(self).spec_input(), j, token@)
                &&& old(self).spec_idx() <= j
                &&& final(self).spec_idx() == if b { j + token@.len() } else { j }
            },
            r matches Ok(false) ==> final(self).spec_ws_end() == Some(final(self).spec_idx()),
            r is Err ==> final(self).is_error_here(r, msg_open_comment()),
    {
        proof { reveal_strlit("unexpected end of input inside multi-line comment"); }
        match self.eat_ws() {
            Err(e) => { return Err(e); }
            Ok(()) => {}
        }
        let chars = str_chars(token);
        Ok(self.match_chars(chars.as_slice()))
    }

    /// Match a keyword in the input, ignoring preceding whitespace
    /// This is different from match_token because there can't be a
    /// match if the following chars are also valid identifier chars.
    pub fn match_keyword(&mut self, keyword: &str) -> (r: Result<bool, ParseError>)
        requires
            old(self).wf(),
            old(self).spec_idx() <= old(self).spec_input().len(),
        ensures
            final(self).wf(),
            final(self).same_source(*old(self)),
            old(self).spec_idx() <= final(self).spec_idx() <= final(self).spec_input().len(),
            r is Ok <==> old(self).spec_ws_end() is Some,
            r matches Ok(b) ==> {
                let j = old(self).spec_ws_end()->0;
                &&& b == keyword_at(old(self).spec_input(), j, keyword@)
                &&& old(self).spec_idx() <= j
                &&& final(self).spec_idx() == if b { j + keyword@.len() } else { j }
            },
            r matches Ok(false) ==> final(self).spec_ws_end() == Some(final(self).spec_idx()),
            r is Err ==> final(self).is_error_here(r, msg_open_comment()),
    {
        proof { reveal_strlit("unexpected end of input inside multi-line comment"); }
        match self.eat_ws() {
            Err(e) => { return Err(e); }
            Ok(()) => {}
        }
        let chars = str_chars(keyword);

        // We can't match as a keyword if the next chars are
        // valid identifier characters
        if chars.len() <= self.input.len() - self.idx {
            let end_pos = self.idx + chars.len();
            if end_pos < self.input.len() && is_ident_ch(self.input[end_pos]) {
                return Ok(false);
            }
        }

        Ok(self.match_chars(chars.as_slice()))
    }

    /// Produce an error if the input doesn't match a given token
    pub fn expect_token(&mut self, token: &str) -> (r: Result<(), ParseError>)
        requires
            old(self).wf(),
            old(self).spec_idx() <= old(self).spec_input().len(),
        ensures
            final(self).wf(),
            final(self).same_source(*old(self)),
            old(self).spec_idx() <= final(self).spec_idx() <= final(self).spec_input().len(),
            r is Ok <==> (old(self).spec_ws_end() matches Some(j)
                && occurs_at(old(self).spec_input(), j, token@)),
            r is Ok ==> final(self).spec_idx() == old(self).spec_ws_end()->0 + token@.len(),
            r is Ok ==> old(self).spec_idx() <= old(self).spec_ws_end()->0,
            r is Err && old(self).spec_ws_end() is None ==> final(self).is_error_here(r, msg_open_comment()),
            r is Err && old(self).spec_ws_end() is Some ==> final(self).spec_idx() == old(self).spec_ws_end()->0
                && final(self).is_error_here(r, "expected token \""@ + token@ + "\""@),
    {
        match self.match_token(token) {
            Err(e) => { return Err(e); }
            Ok(true) => { return Ok(()); }
            Ok(false) => {}
        }
        let msg = concat_msg("expected token \"", token, "\"");
        self.parse_error(msg.as_str())
    }

    /// Parse an integer value in a given radix, with underscores allowed
    /// as separators
    pub fn parse_int(&mut self, radix: u32) -> (r: Result<i128, ParseError>)
        requires
            old(self).wf(),
            old(self).spec_idx() <= old(self).spec_input().len(),
            2 <= radix <= 36,
        ensures
            final(self).wf(),
            final(self).same_source(*old(self)),
            old(self).spec_idx() <= final(self).spec_idx() <= final(self).spec_input().len(),
            ({
                let s = old(self).spec_input();
                let i = old(self).spec_idx();
                let starts = i < s.len() && spec_to_digit(s[i], radix) is Some;
                let j = digits_end(s, i, radix);
                &&& r is Ok <==> starts && digits_value(s, i, j, radix) <= i128::MAX
                &&& r matches Ok(v) ==> v == digits_value(s, i, j, radix) && final(self).spec_idx() == j
                &&& !starts ==> old(self).is_error_here(r, "expected digit"@)
                &&& starts && r is Err ==> final(self).is_error_here(r, "integer literal is too large"@)
            }),
    {
        let ghost s = self.input@;
        let ghost i0 = self.idx as int;
        let ghost j = digits_end(s, i0, radix);
        proof { lemma_digits_end(s, i0, radix); }

        if self.eof() || to_digit(self.peek_ch(), radix).is_none() {
            return self.parse_error("expected digit");
        }

        let mut int_val: i128 = 0;
        loop
            invariant
                self.wf(),
                self.same_source(*old(self)),
                s == self.spec_input(),
                i0 == old(self).spec_idx(),
                i0 <= self.spec_idx() <= j,
                j <= s.len(),
                i0 < s.len() && spec_to_digit(s[i0], radix) is Some,
                j == digits_end(s, i0, radix),
                2 <= radix <= 36,
                0 <= int_val,
                int_val == digits_value(s, i0, self.spec_idx(), radix),
                forall|k: int| i0 <= k < j ==> s[k] == '_' || #[trigger] spec_to_digit(s[k], radix) is Some,
                j < s.len() ==> !(s[j] == '_' || spec_to_digit(s[j], radix) is Some),
            ensures
                self.spec_idx() == j,
                int_val == digits_value(s, i0, j, radix),
            decreases j - self.spec_idx(),
        {
            if self.eof() {
                break;
            }

            let ch = self.peek_ch();

            // Allow underscores as separators
            if ch == '_' {
                self.eat_ch();
                continue;
            }

            let digit = to_digit(ch, radix);
            match digit {
                None => {
                    break;
                }
                Some(d) => {
                    let limit: i128 = (i128::MAX - d as i128) / (radix as i128);

                    // Guard against overflowing the accumulator, so that an
                    // absurdly long literal is a parse error
                    if int_val > limit {
                        proof {
                            let idx = self.spec_idx();
                            assert(idx < j);
                            assert(int_val * radix + d > i128::MAX) by (nonlinear_arith)
                                requires
                                    int_val > limit,
                                    limit == (i128::MAX - d) / (radix as int),
                                    2 <= radix,
                                    0 <= d < radix;
                            assert(digits_value(s, i0, idx + 1, radix) == int_val * radix + d);
                            lemma_digits_value_monotonic(s, i0, idx + 1, j, radix);
                        }
                        return self.parse_error("integer literal is too large");
                    }
                    proof {
                        assert(int_val * radix + d <= i128::MAX) by (nonlinear_arith)
                            requires
                                0 <= int_val <= limit,
                                limit == (i128::MAX - d) / (radix as int),
                                2 <= radix,
                                0 <= d < radix;
                        assert(0 <= int_val * radix) by (nonlinear_arith)
                            requires 0 <= int_val, 2 <= radix;
                    }
                    int_val = int_val * (radix as i128) + (d as i128);
                    self.eat_ch();
                }
            }
        }
        Ok(int_val)
    }
}


impl Lexer {
    /// Read a run of digits and underscores that starts with a digit;
    /// false if there is no digit to read
    fn read_digits(&mut self) -> (r: bool)
        requires
            old(self).wf(),
            old(self).spec_idx() <= old(self).spec_input().len(),
        ensures
            final(self).wf(),
            final(self).same_source(*old(self)),
            r == spec_is_digit(old(self).spec_peek_at(0)),
            final(self).spec_idx() == read_digits_end(old(self).spec_input(), old(self).spec_idx()),
    {
        let ghost s = self.input@;
        proof { lemma_run_end(s, self.idx as int); }

        // The first char must be a digit
        if !is_digit(self.peek_ch()) {
            return false;
        }

        loop
            invariant
                self.wf(),
                self.same_source(*old(self)),
                s == self.spec_input(),
                old(self).spec_idx() <= self.spec_idx() <= run_end(s, old(self).spec_idx()),
                run_end(s, self.spec_idx()) == run_end(s, old(self).spec_idx()),
                run_end(s, old(self).spec_idx()) <= s.len(),
            ensures
                self.spec_idx() == run_end(s, old(self).spec_idx()),
            decreases s.len() - self.spec_idx(),
        {
            let ch = self.peek_ch();
            if !is_digit(ch) && ch != '_' {
                break;
            }
            proof { lemma_run_end(s, self.spec_idx() + 1); }
            self.eat_ch();
        }
        true
    }

    /// Read an optional sign
    fn read_sign(&mut self)
        requires
            old(self).wf(),
            old(self).spec_idx() <= old(self).spec_input().len(),
        ensures
            final(self).wf(),
            final(self).same_source(*old(self)),
            final(self).spec_idx() == sign_end(old(self).spec_input(), old(self).spec_idx()),
    {
        if !self.match_char('+') {
            self.match_char('-');
        }
    }

    /// Read the characters of a numeric value into a string, without its
    /// underscore separators
    pub fn read_numeric(&mut self) -> (r: Result<String, ParseError>)
        requires
            old(self).wf(),
            old(self).spec_idx() <= old(self).spec_input().len(),
        ensures
            final(self).wf(),
            final(self).same_source(*old(self)),
            old(self).spec_idx() <= final(self).spec_idx() <= final(self).spec_input().len(),
            r is Ok <==> numeric_end(old(self).spec_input(), old(self).spec_idx()) is Some,
            r matches Ok(v) ==> {
                let e = numeric_end(old(self).spec_input(), old(self).spec_idx())->0;
                &&& final(self).spec_idx() == e
                &&& v@ == without_underscores(old(self).spec_input().subrange(old(self).spec_idx(), e))
            },
            r is Err ==> final(self).is_error_here(r, "expected digits in floating-point exponent"@),
    {
        let ghost s = self.input@;
        let start_idx = self.idx;
        proof {
            lemma_run_end(s, sign_end(s, start_idx as int));
        }

        // Read optional sign
        self.read_sign();

        // Read decimal part
        self.read_digits();
        proof { lemma_run_end(s, self.idx as int + 1); }

        // Fractional part. A digit has to follow the dot, otherwise the dot
        // belongs to a method call: `10.idiv(3)` is an integer with a method
        // on it, not the float `10.` followed by a stray name
        if self.peek_ch() == '.' && is_digit(self.peek_ch_at(1)) {
            self.eat_ch();
            self.read_digits();
        }

        // Exponent. There is no valid syntax where an `e` follows a number,
        // so rather than backtrack, a missing exponent is an error
        let ghost p3 = self.idx as int;
        proof { lemma_run_end(s, sign_end(s, p3 + 1)); }
        if self.match_char('e') || self.match_char('E') {
            self.read_sign();

            if !self.read_digits() {
                return self.parse_error("expected digits in floating-point exponent");
            }
        }

        let end_idx = self.idx;

        // Collect the characters, leaving out the underscore separators
        let mut out: Vec<char> = Vec::new();
        let mut k: usize = start_idx;
        while k < end_idx
            invariant
                start_idx <= k <= end_idx,
                end_idx <= self.input@.len(),
                out@ == without_underscores(self.input@.subrange(start_idx as int, k as int)),
            decreases end_idx - k,
        {
            let ch = self.input[k];
            proof {
                let t = self.input@.subrange(start_idx as int, k + 1);
                assert(t.drop_last() =~= self.input@.subrange(start_idx as int, k as int));
                assert(t.last() == ch);
            }
            if ch != '_' {
                out.push(ch);
            }
            k = k + 1;
        }
        Ok(string_from_chars(out.as_slice()))
    }

    /// Parse a string literal, from its opening character up to the
    /// closing `end_ch`, with escape sequences replaced
    pub fn parse_str(&mut self, end_ch: char) -> (r: Result<String, ParseError>)
        requires
            old(self).wf(),
            old(self).spec_idx() < old(self).spec_input().len(),
        ensures
            final(self).wf(),
            final(self).same_source(*old(self)),
            old(self).spec_idx() <= final(self).spec_idx(),
            r is Ok ==> old(self).spec_idx() < final(self).spec_idx(),
            r is Ok <==> str_lit(old(self).spec_input(), old(self).spec_idx() + 1, end_ch) is Some,
            r matches Ok(v) ==> {
                let lit = str_lit(old(self).spec_input(), old(self).spec_idx() + 1, end_ch)->0;
                &&& v@ == lit.0
                &&& final(self).spec_idx() == lit.1
                &&& final(self).spec_idx() <= final(self).spec_input().len()
            },
            r matches Err(e) ==> e.pos == final(self).spec_pos() && (
                e.msg@ == "unexpected end of input while parsing string literal"@
                || e.msg@ == "unknown escape sequence"@
                || e.msg@ == "invalid hexadecimal escape sequence"@),
    {
        let ghost s = self.input@;
        let ghost target = str_lit(s, old(self).spec_idx() + 1, end_ch);
        proof { lemma_str_lit(s, old(self).spec_idx() + 1, end_ch); }

        // Eat the opening character
        self.eat_ch();

        let mut out: Vec<char> = Vec::new();

        loop
            invariant_except_break
                match str_lit(s, self.spec_idx(), end_ch) {
                    Some((rest, j)) => target == Some((out@ + rest, j)),
                    None => target is None,
                },
            invariant
                self.wf(),
                self.same_source(*old(self)),
                s == self.spec_input(),
                target == str_lit(s, old(self).spec_idx() + 1, end_ch),
                old(self).spec_idx() < self.spec_idx() <= s.len(),
            ensures
                target == Some((out@, self.spec_idx())),
            decreases s.len() - self.spec_idx(),
        {
            if self.eof() {
                return self.parse_error("unexpected end of input while parsing string literal");
            }

            let ghost i = self.spec_idx();
            let ch = self.eat_ch();

            if ch == end_ch {
                assert(out@ + Seq::<char>::empty() =~= out@);
                break;
            }

            if ch == '\\' {
                let e = self.eat_ch();
                let esc: Option<char> =
                    if e == '\\' { Some('\\') }
                    else if e == '\'' { Some('\'') }
                    else if e == '"' { Some('"') }
                    else if e == 't' { Some('\t') }
                    else if e == 'r' { Some('\r') }
                    else if e == 'n' { Some('\n') }
                    else if e == '0' { Some('\0') }
                    else { None };
                match esc {
                    Some(c) => {
                        proof {
                            match str_lit(s, i + 2, end_ch) {
                                Some((rest, j)) => {
                                    assert(out@.push(c) + rest =~= out@ + (seq![c] + rest));
                                }
                                None => {}
                            }
                        }
                        out.push(c);
                        if self.idx > self.input.len() {
                            return self.parse_error("unexpected end of input while parsing string literal");
                        }
                    }
                    None => {
                        if e != 'x' {
                            return self.parse_error("unknown escape sequence");
                        }

                        // Hexadecimal escape sequence
                        let digit0 = to_digit(self.eat_ch(), 16);
                        let digit1 = to_digit(self.eat_ch(), 16);

                        match (digit0, digit1) {
                            (Some(d0), Some(d1)) => {
                                let byte_val: u8 = (d0 * 16 + d1) as u8;
                                let c = byte_val as char;
                                proof {
                                    match str_lit(s, i + 4, end_ch) {
                                        Some((rest, j)) => {
                                            assert(out@.push(c) + rest =~= out@ + (seq![c] + rest));
                                        }
                                        None => {}
                                    }
                                }
                                out.push(c);
                                if self.idx > self.input.len() {
                                    return self.parse_error("unexpected end of input while parsing string literal");
                                }
                            }
                            _ => {
                                return self.parse_error("invalid hexadecimal escape sequence");
                            }
                        }
                    }
                }
                continue;
            }

            proof {
                match str_lit(s, i + 1, end_ch) {
                    Some((rest, j)) => {
                        assert(out@.push(ch) + rest =~= out@ + (seq![ch] + rest));
                    }
                    None => {}
                }
            }
            out.push(ch);
        }

        Ok(string_from_chars(out.as_slice()))
    }

    /// Parse a C-style alphanumeric identifier
    pub fn parse_ident(&mut self) -> (r: Result<String, ParseError>)
        requires
            old(self).wf(),
            old(self).spec_idx() <= old(self).spec_input().len(),
        ensures
            final(self).wf(),
            final(self).same_source(*old(self)),
            old(self).spec_idx() <= final(self).spec_idx() <= final(self).spec_input().len(),
            r is Ok <==> !old(self).spec_eof() && spec_is_ident_start(old(self).spec_peek_at(0)),
            r matches Ok(v) ==> {
                let e = ident_end(old(self).spec_input(), old(self).spec_idx());
                &&& final(self).spec_idx() == e
                &&& v@ == old(self).spec_input().subrange(old(self).spec_idx(), e)
            },
            r is Err ==> old(self).is_error_here(r, "expected identifier"@) && *final(self) == *old(self),
    {
        let ghost s = self.input@;
        let ghost i0 = self.idx as int;
        proof { lemma_ident_end(s, i0); }

        if self.eof() || !is_ident_start(self.peek_ch()) {
            return self.parse_error("expected identifier");
        }

        let mut ident: Vec<char> = Vec::new();
        loop
            invariant
                self.wf(),
                self.same_source(*old(self)),
                s == self.spec_input(),
                i0 == old(self).spec_idx(),
                i0 <= self.spec_idx() <= ident_end(s, i0),
                ident_end(s, self.spec_idx()) == ident_end(s, i0),
                ident_end(s, i0) <= s.len(),
                ident@ == s.subrange(i0, self.spec_idx()),
            ensures
                self.spec_idx() == ident_end(s, i0),
            decreases s.len() - self.spec_idx(),
        {
            if self.eof() {
                break;
            }

            let ch = self.peek_ch();

            if !is_ident_ch(ch) {
                break;
            }

            proof {
                assert(s.subrange(i0, self.spec_idx() + 1) =~= s.subrange(i0, self.spec_idx()).push(ch));
            }
            proof { lemma_ident_end(s, self.spec_idx() + 1); }
            ident.push(ch);
            self.eat_ch();
        }

        Ok(string_from_chars(ident.as_slice()))
    }
}

} // verus!
