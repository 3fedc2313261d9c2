//! The script parser.
//!
//! A script is a '\n'-separated text. A block opens with a header line that
//! begins with `::`, the rest of the line being the block's id. Inside a
//! block, a line equal to `%%` closes the block, a line beginning with `>`
//! declares a choice, and every other line (including an empty one) is a
//! content line; content lines are joined with single newlines. A choice line
//! has the shape `>target|command|label`: the target id up to the first `|`,
//! the command word up to the second `|`, and the label after it (an absent
//! second `|` leaves the label empty). Lines outside any block that are not
//! headers are ignored. Parsing is a single pass and does no cross-validation
//! of ids; that is the builder's job.

use vstd::prelude::*;

use crate::errors::ParseError;

verus! {

/// One declared choice inside a block: the id of the block it leads to, the
/// command word a user must type to take it, and a human-readable label.
pub struct RawChoice {
    pub target_id: String,
    pub command: String,
    pub label: String,
}

/// The mathematical value of a [`RawChoice`].
pub ghost struct ChoiceModel {
    pub target_id: Seq<char>,
    pub command: Seq<char>,
    pub label: Seq<char>,
}

impl View for RawChoice {
    type V = ChoiceModel;

    open spec fn view(&self) -> ChoiceModel {
        ChoiceModel { target_id: self.target_id@, command: self.command@, label: self.label@ }
    }
}

/// One parsed block: its id, its display content, and its declared choices in
/// declaration order.
pub struct RawBlock {
    pub id: String,
    pub content: String,
    pub children: Vec<RawChoice>,
}

/// The mathematical value of a [`RawBlock`].
pub ghost struct BlockModel {
    pub id: Seq<char>,
    pub content: Seq<char>,
    pub children: Seq<ChoiceModel>,
}

impl View for RawBlock {
    type V = BlockModel;

    open spec fn view(&self) -> BlockModel {
        BlockModel {
            id: self.id@,
            content: self.content@,
            children: self.children@.map_values(|c: RawChoice| c@),
        }
    }
}

/// The values of a sequence of raw blocks.
pub open spec fn blocks_view(bs: Seq<RawBlock>) -> Seq<BlockModel> {
    bs.map_values(|b: RawBlock| b@)
}

/// Index of the first occurrence of `c` in `s` at or after `from`; `s.len()`
/// when there is none.
pub open spec fn scan_for(s: Seq<char>, c: char, from: int) -> int
    decreases s.len() - from,
{
    if from < 0 || from >= s.len() {
        s.len() as int
    } else if s[from] == c {
        from
    } else {
        scan_for(s, c, from + 1)
    }
}

pub proof fn lemma_scan_for(s: Seq<char>, c: char, from: int)
    requires
        0 <= from <= s.len(),
    ensures
        from <= scan_for(s, c, from) <= s.len(),
        scan_for(s, c, from) < s.len() ==> s[scan_for(s, c, from)] == c,
        forall|k: int| from <= k < scan_for(s, c, from) ==> s[k] != c,
    decreases s.len() - from,
{
    if from < s.len() && s[from] != c {
        lemma_scan_for(s, c, from + 1);
    }
}

/// First index of `c` in `s` at or after `from`, or the length of `s` when
/// `c` does not occur there.
pub(crate) fn find_char(s: &str, c: char, from: usize) -> (r: usize)
    requires
        from <= s@.len(),
    ensures
        r == scan_for(s@, c, from as int),
{
    proof {
        lemma_scan_for(s@, c, from as int);
    }
    let n = s.unicode_len();
    let mut i = from;
    while i < n
        invariant
            from <= i <= n,
            n == s@.len(),
            scan_for(s@, c, from as int) >= i,
        decreases n - i,
    {
        if s.get_char(i) == c {
            proof {
                lemma_scan_for(s@, c, from as int);
            }
            return i;
        }
        proof {
            lemma_scan_for(s@, c, from as int);
        }
        i = i + 1;
    }
    proof {
        lemma_scan_for(s@, c, from as int);
    }
    i
}

/// The lines of `s` from position `from` on, split at `'\n'`. Every text has
/// at least one line; a trailing `'\n'` yields a final empty line.
pub open spec fn split_from(s: Seq<char>, from: int) -> Seq<Seq<char>>
    decreases s.len() - from,
    via split_from_decreases
{
    let e = scan_for(s, '\n', from);
    if e >= s.len() {
        seq![s.subrange(from, s.len() as int)]
    } else {
        seq![s.subrange(from, e)] + split_from(s, e + 1)
    }
}

#[via_fn]
proof fn split_from_decreases(s: Seq<char>, from: int) {
    if 0 <= from <= s.len() {
        lemma_scan_for(s, '\n', from);
    }
}

/// The lines of `s`, split at `'\n'`.
pub open spec fn split_lines(s: Seq<char>) -> Seq<Seq<char>> {
    split_from(s, 0)
}

/// The values of a vector of lines.
pub open spec fn lines_view(ls: Seq<String>) -> Seq<Seq<char>> {
    ls.map_values(|l: String| l@)
}

/// Splits `s` into its lines at `'\n'`.
pub(crate) fn split_lines_exec(s: &str) -> (r: Vec<String>)
    ensures
        lines_view(r@) == split_lines(s@),
{
    let n = s.unicode_len();
    let mut out: Vec<String> = Vec::new();
    let mut pos: usize = 0;
    loop
        invariant_except_break
            pos <= n,
            n == s@.len(),
            split_lines(s@) =~= lines_view(out@) + split_from(s@, pos as int),
        ensures
            lines_view(out@) == split_lines(s@),
        decreases n - pos,
    {
        let e = find_char(s, '\n', pos);
        proof {
            lemma_scan_for(s@, '\n', pos as int);
        }
        let line = s.substring_char(pos, e).to_owned();
        out.push(line);
        proof {
            assert(lines_view(out@) =~= lines_view(out@.drop_last()).push(out@.last()@));
        }
        if e == n {
            proof {
                assert(split_from(s@, pos as int) =~= seq![s@.subrange(pos as int, n as int)]);
                assert(split_lines(s@) =~= lines_view(out@));
            }
            break;
        }
        pos = e + 1;
    }
    out
}

/// The line that closes a block.
pub open spec fn terminator() -> Seq<char> {
    "%%"@
}

/// The separator between two content lines of one block.
pub open spec fn newline() -> Seq<char> {
    "\n"@
}

/// A header line: it begins with `::`.
pub open spec fn is_header(l: Seq<char>) -> bool {
    l.len() >= 2 && l[0] == ':' && l[1] == ':'
}

/// A choice line: it begins with `>`.
pub open spec fn is_choice(l: Seq<char>) -> bool {
    l.len() >= 1 && l[0] == '>'
}

/// The choice a choice line `l` declares, or `None` when its command word is
/// missing: the target id runs to the first `|`, the command word to the
/// second, and the label is the rest; without a second `|` the label is empty.
pub open spec fn choice_of_line(l: Seq<char>) -> Option<ChoiceModel> {
    let rest = l.subrange(1, l.len() as int);
    let p = scan_for(rest, '|', 0);
    if p >= rest.len() {
        None
    } else {
        let target = rest.subrange(0, p);
        let after = rest.subrange(p + 1, rest.len() as int);
        let q = scan_for(after, '|', 0);
        let command = if q >= after.len() {
            after
        } else {
            after.subrange(0, q)
        };
        let label = if q >= after.len() {
            Seq::<char>::empty()
        } else {
            after.subrange(q + 1, after.len() as int)
        };
        if command.len() == 0 {
            None
        } else {
            Some(ChoiceModel { target_id: target, command: command, label: label })
        }
    }
}

/// A block that is open while the parser walks the lines: everything gathered
/// so far, and the index of its header line.
pub ghost struct OpenBlockModel {
    pub id: Seq<char>,
    pub content: Seq<char>,
    pub has_content: bool,
    pub children: Seq<ChoiceModel>,
    pub header_line: int,
}

/// The parser's state between two lines: the blocks already closed, and the
/// block still open, if any.
pub ghost struct ParseState {
    pub done: Seq<BlockModel>,
    pub cur: Option<OpenBlockModel>,
}

/// The parser's state at the start of the text.
pub open spec fn initial_state() -> ParseState {
    ParseState { done: Seq::empty(), cur: None }
}

/// One step of the parser: reading line `l`, which is line number `ln`,
/// in state `st`.
pub open spec fn step(st: ParseState, l: Seq<char>, ln: int) -> Result<ParseState, ParseError> {
    match st.cur {
        None => {
            if is_header(l) {
                let id = l.subrange(2, l.len() as int);
                if id.len() == 0 {
                    Err(ParseError::MissingId { line: ln as usize })
                } else {
                    Ok(
                        ParseState {
                            done: st.done,
                            cur: Some(
                                OpenBlockModel {
                                    id: id,
                                    content: Seq::empty(),
                                    has_content: false,
                                    children: Seq::empty(),
                                    header_line: ln,
                                },
                            ),
                        },
                    )
                }
            } else {
                Ok(st)
            }
        },
        Some(cur) => {
            if l == terminator() {
                Ok(
                    ParseState {
                        done: st.done.push(
                            BlockModel { id: cur.id, content: cur.content, children: cur.children },
                        ),
                        cur: None,
                    },
                )
            } else if is_choice(l) {
                match choice_of_line(l) {
                    Some(c) => Ok(
                        ParseState {
                            done: st.done,
                            cur: Some(OpenBlockModel { children: cur.children.push(c), ..cur }),
                        },
                    ),
                    None => Err(ParseError::MissingCommand { line: ln as usize }),
                }
            } else {
                let joined = if cur.has_content {
                    cur.content + newline() + l
                } else {
                    l
                };
                Ok(
                    ParseState {
                        done: st.done,
                        cur: Some(OpenBlockModel { content: joined, has_content: true, ..cur }),
                    },
                )
            }
        },
    }
}

/// The parser's state after the first `n` lines of `ls`, or the first error.
pub open spec fn parse_upto(ls: Seq<Seq<char>>, n: int) -> Result<ParseState, ParseError>
    decreases n,
{
    if n <= 0 {
        Ok(initial_state())
    } else {
        match parse_upto(ls, n - 1) {
            Ok(st) => step(st, ls[n - 1], n - 1),
            Err(e) => Err(e),
        }
    }
}

/// What parsing the whole text `s` yields: the closed blocks in order, or the
/// first error; a block still open at the end of the text is an
/// `UnterminatedBlock` error at its header line.
pub open spec fn spec_parse(s: Seq<char>) -> Result<Seq<BlockModel>, ParseError> {
    let ls = split_lines(s);
    match parse_upto(ls, ls.len() as int) {
        Ok(st) => match st.cur {
            Some(cur) => Err(ParseError::UnterminatedBlock { line: cur.header_line as usize }),
            None => Ok(st.done),
        },
        Err(e) => Err(e),
    }
}

pub proof fn lemma_parse_upto_error(ls: Seq<Seq<char>>, m: int, n: int)
    requires
        m <= n,
        parse_upto(ls, m) is Err,
    ensures
        parse_upto(ls, n) == parse_upto(ls, m),
    decreases n,
{
    if m < n {
        lemma_parse_upto_error(ls, m, n - 1);
    }
}

/// Whether two string slices hold the same characters.
pub(crate) fn str_eq(a: &str, b: &str) -> (r: bool)
    ensures
        r == (a@ == b@),
{
    let ao = a.to_owned();
    let bo = b.to_owned();
    ao.eq(&bo)
}

/// Parses one choice line (line number `ln`); `Err` exactly when the line
/// declares no command word.
fn parse_choice_line(line: &str, ln: usize) -> (r: Result<RawChoice, ParseError>)
    requires
        is_choice(line@),
    ensures
        match r {
            Ok(c) => choice_of_line(line@) == Some(c@),
            Err(e) => choice_of_line(line@) is None && e == (ParseError::MissingCommand {
                line: ln,
            }),
        },
{
    let n = line.unicode_len();
    let rest = line.substring_char(1, n);
    let rn = rest.unicode_len();
    let p = find_char(rest, '|', 0);
    proof {
        lemma_scan_for(rest@, '|', 0);
    }
    if p >= rn {
        return Err(ParseError::MissingCommand { line: ln });
    }
    let target = rest.substring_char(0, p).to_owned();
    let after = rest.substring_char(p + 1, rn);
    let an = after.unicode_len();
    let q = find_char(after, '|', 0);
    proof {
        lemma_scan_for(after@, '|', 0);
    }
    let command = if q >= an {
        after.to_owned()
    } else {
        after.substring_char(0, q).to_owned()
    };
    let label = if q >= an {
        String::new()
    } else {
        after.substring_char(q + 1, an).to_owned()
    };
    if command.as_str().unicode_len() == 0 {
        return Err(ParseError::MissingCommand { line: ln });
    }
    Ok(RawChoice { target_id: target, command: command, label: label })
}

/// A block that is open while the parser walks the lines.
struct OpenBlock {
    id: String,
    content: String,
    has_content: bool,
    children: Vec<RawChoice>,
    header_line: usize,
}

spec fn ob_view(ob: &OpenBlock) -> OpenBlockModel {
    OpenBlockModel {
        id: ob.id@,
        content: ob.content@,
        has_content: ob.has_content,
        children: ob.children@.map_values(|c: RawChoice| c@),
        header_line: ob.header_line as int,
    }
}

spec fn open_block_view(c: &Option<OpenBlock>) -> Option<OpenBlockModel> {
    match c {
        Some(ob) => Some(ob_view(ob)),
        None => None,
    }
}

/// Parses a whole script text into its raw blocks in declaration order, or
/// reports the first malformed line. The result is exactly what
/// [`spec_parse`] assigns to the text.
pub fn parse(text: &str) -> (r: Result<Vec<RawBlock>, ParseError>)
    ensures
        match r {
            Ok(blocks) => spec_parse(text@) == Ok::<Seq<BlockModel>, ParseError>(
                blocks_view(blocks@),
            ),
            Err(e) => spec_parse(text@) == Err::<Seq<BlockModel>, ParseError>(e),
        },
{
    let lines = split_lines_exec(text);
    let ghost lsv = split_lines(text@);
    let mut done: Vec<RawBlock> = Vec::new();
    let mut cur: Option<OpenBlock> = None;
    let mut i: usize = 0;
    proof {
        assert(blocks_view(done@) =~= Seq::<BlockModel>::empty());
        assert(parse_upto(lsv, 0) == Ok::<ParseState, ParseError>(initial_state()));
    }
    while i < lines.len()
        invariant
            i <= lines.len(),
            lsv == split_lines(text@),
            lsv == lines_view(lines@),
            parse_upto(lsv, i as int) == Ok::<ParseState, ParseError>(
                ParseState { done: blocks_view(done@), cur: open_block_view(&cur) },
            ),
        decreases lines.len() - i,
    {
        let line = &lines[i];
        proof {
            assert(lsv[i as int] == lines@[i as int]@);
        }
        let ghost st0 = ParseState { done: blocks_view(done@), cur: open_block_view(&cur) };
        let taken = cur;
        cur = None;
        match taken {
            None => {
                let ln_len = line.as_str().unicode_len();
                let header = ln_len >= 2 && line.as_str().get_char(0) == ':'
                    && line.as_str().get_char(1) == ':';
                if header {
                    let id = line.as_str().substring_char(2, ln_len).to_owned();
                    if id.as_str().unicode_len() == 0 {
                        proof {
                            lemma_parse_upto_error(lsv, i + 1, lsv.len() as int);
                        }
                        return Err(ParseError::MissingId { line: i });
                    }
                    cur = Some(
                        OpenBlock {
                            id: id,
                            content: String::new(),
                            has_content: false,
                            children: Vec::new(),
                            header_line: i,
                        },
                    );
                    proof {
                        assert(cur->Some_0.children@.map_values(|c: RawChoice| c@)
                            =~= Seq::<ChoiceModel>::empty());
                    }
                }
            },
            Some(mut ob) => {
                if str_eq(line.as_str(), "%%") {
                    let ghost old_done = done@;
                    done.push(RawBlock { id: ob.id, content: ob.content, children: ob.children });
                    proof {
                        assert(blocks_view(done@) =~= blocks_view(old_done).push(
                            done@[done@.len() - 1]@,
                        ));
                    }
                } else {
                    let ln_len = line.as_str().unicode_len();
                    let choice = ln_len >= 1 && line.as_str().get_char(0) == '>';
                    if choice {
                        match parse_choice_line(line.as_str(), i) {
                            Ok(c) => {
                                let ghost old_children = ob.children@;
                                ob.children.push(c);
                                proof {
                                    assert(ob.children@.map_values(|c: RawChoice| c@)
                                        =~= old_children.map_values(|c: RawChoice| c@).push(
                                        ob.children@[ob.children@.len() - 1]@,
                                    ));
                                }
                                cur = Some(ob);
                            },
                            Err(e) => {
                                proof {
                                    lemma_parse_upto_error(lsv, i + 1, lsv.len() as int);
                                }
                                return Err(e);
                            },
                        }
                    } else {
                        if ob.has_content {
                            ob.content.append("\n");
                            ob.content.append(line.as_str());
                        } else {
                            ob.content = line.clone();
                            ob.has_content = true;
                        }
                        cur = Some(ob);
                    }
                }
            },
        }
        proof {
            assert(parse_upto(lsv, i as int + 1) == step(st0, lsv[i as int], i as int));
            assert(step(st0, lsv[i as int], i as int) == Ok::<ParseState, ParseError>(
                ParseState { done: blocks_view(done@), cur: open_block_view(&cur) },
            ));
        }
        i = i + 1;
    }
    match cur {
        Some(ob) => Err(ParseError::UnterminatedBlock { line: ob.header_line }),
        None => Ok(done),
    }
}

} // verus!
