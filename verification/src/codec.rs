//! How a task is written down: the name of its file, made of the digits of
//! its identifier, and the two lines that the file holds.
use vstd::prelude::*;

use crate::status::{lemma_parse_tag, Status};
use crate::task::{BasicTask, TaskModel};

verus! {

/// The least number of digits in the name of a task's file.
pub const NAME_WIDTH: usize = 5;

/// The digit that stands for a number below ten.
pub open spec fn digit(value: nat) -> char {
    if value == 0 {
        '0'
    } else if value == 1 {
        '1'
    } else if value == 2 {
        '2'
    } else if value == 3 {
        '3'
    } else if value == 4 {
        '4'
    } else if value == 5 {
        '5'
    } else if value == 6 {
        '6'
    } else if value == 7 {
        '7'
    } else if value == 8 {
        '8'
    } else {
        '9'
    }
}

/// Whether a character is one of the ten digits.
pub open spec fn is_digit(c: char) -> bool {
    '0' <= c && c <= '9'
}

/// The number that a digit stands for.
pub open spec fn digit_value(c: char) -> nat {
    (c as u32 - '0' as u32) as nat
}

/// A number in decimal digits, without leading zeros.
pub open spec fn decimal(n: nat) -> Seq<char>
    decreases n,
{
    if n < 10 {
        seq![digit(n)]
    } else {
        decimal(n / 10).push(digit(n % 10))
    }
}

/// So many zeros.
pub open spec fn zeros(count: nat) -> Seq<char> {
    Seq::new(count, |i: int| '0')
}

/// A number in decimal digits, with zeros in front of it where it has
/// fewer than `width` digits.
pub open spec fn padded(n: nat, width: nat) -> Seq<char> {
    if decimal(n).len() < width {
        zeros((width - decimal(n).len()) as nat) + decimal(n)
    } else {
        decimal(n)
    }
}

/// The number that a run of decimal digits stands for.
pub open spec fn number(digits: Seq<char>) -> nat
    decreases digits.len(),
{
    if digits.len() == 0 {
        0
    } else {
        number(digits.drop_last()) * 10 + digit_value(digits.last())
    }
}

/// Whether every character is a digit.
pub open spec fn all_digits(text: Seq<char>) -> bool {
    forall|i: int| 0 <= i < text.len() ==> is_digit(#[trigger] text[i])
}

/// The name of the file that keeps the task with the given identifier: the
/// identifier in decimal, at least five digits wide.
pub open spec fn entry_name(id: usize) -> Seq<char> {
    padded(id as nat, NAME_WIDTH as nat)
}

/// Where the file of a task is found: its name, below the directory.
pub open spec fn file_path(dir: Seq<char>, id: usize) -> Seq<char> {
    dir.push('/') + entry_name(id)
}

/// The identifier that the name of a file stands for: one or more decimal
/// digits, with or without a `+` in front of them, that stand for a number
/// within the range of identifiers. Any other name stands for none.
pub open spec fn parsed_id(name: Seq<char>) -> Option<usize> {
    let digits = if name.len() > 0 && name[0] == '+' {
        name.drop_first()
    } else {
        name
    };
    if digits.len() > 0 && all_digits(digits) && number(digits) <= usize::MAX {
        Some(number(digits) as usize)
    } else {
        None
    }
}

/// The length of the first line of a text: the place of its first line
/// feed, or the length of the text where it has none.
pub open spec fn first_line_len(text: Seq<char>) -> int
    decreases text.len(),
{
    if text.len() == 0 || text[0] == '\n' {
        0
    } else {
        1 + first_line_len(text.drop_first())
    }
}

/// What the file of a task holds: the name, a line feed, and the name of
/// the status.
pub open spec fn encoded(task: TaskModel) -> Seq<char> {
    task.name.push('\n') + task.status.tag_text()
}

/// The task that the content of a file stands for: the first line is its
/// name, and what follows the first line feed names its status, letter for
/// letter. Any other content stands for none.
pub open spec fn decoded(content: Seq<char>) -> Option<TaskModel> {
    let end = first_line_len(content);
    if end < content.len() {
        match Status::parsed(content.skip(end + 1)) {
            Some(status) => Some(TaskModel { status, name: content.take(end) }),
            None => None,
        }
    } else {
        None
    }
}

/// A digit stands for the number that it was chosen for.
pub proof fn lemma_digit(value: nat)
    requires
        value < 10,
    ensures
        is_digit(digit(value)),
        digit_value(digit(value)) == value,
{
}

/// A number has at least one digit, and all of them are digits.
pub proof fn lemma_decimal_digits(n: nat)
    ensures
        decimal(n).len() >= 1,
        all_digits(decimal(n)),
    decreases n,
{
    if n < 10 {
        lemma_digit(n);
    } else {
        lemma_decimal_digits(n / 10);
        lemma_digit(n % 10);
    }
}

/// Digits behind zeros stand for the number that they stand for alone.
pub proof fn lemma_number_after_zeros(count: nat, n: nat)
    ensures
        number(zeros(count) + decimal(n)) == n,
    decreases n, count,
{
    let text = zeros(count) + decimal(n);
    if n < 10 {
        lemma_digit(n);
        assert(text.last() == digit(n));
        assert(text.drop_last() =~= zeros(count));
        lemma_number_of_zeros(count);
    } else {
        lemma_digit(n % 10);
        assert(text.last() == digit(n % 10));
        assert(text.drop_last() =~= zeros(count) + decimal(n / 10));
        lemma_number_after_zeros(count, n / 10);
    }
}

/// Zeros stand for zero.
pub proof fn lemma_number_of_zeros(count: nat)
    ensures
        number(zeros(count)) == 0,
    decreases count,
{
    if count > 0 {
        assert(zeros(count).drop_last() =~= zeros((count - 1) as nat));
        lemma_number_of_zeros((count - 1) as nat);
    }
}

/// The name of a task's file stands for the task's identifier.
pub proof fn lemma_entry_name_parses(id: usize)
    ensures
        parsed_id(entry_name(id)) == Some(id),
{
    let n = id as nat;
    let name = entry_name(id);
    lemma_decimal_digits(n);
    if decimal(n).len() < NAME_WIDTH {
        let count = (NAME_WIDTH - decimal(n).len()) as nat;
        lemma_number_after_zeros(count, n);
        assert(name[0] == '0');
        assert forall|i: int| 0 <= i < name.len() implies is_digit(#[trigger] name[i]) by {
            if i >= count {
                assert(name[i] == decimal(n)[i - count]);
            }
        }
    } else {
        lemma_number_after_zeros(0, n);
        assert(zeros(0) + decimal(n) =~= decimal(n));
        assert(is_digit(name[0]));
    }
}

/// Where a text has no line feed before `end`, and one at `end` or its end
/// there, its first line is `end` long.
pub proof fn lemma_first_line(text: Seq<char>, end: int)
    requires
        0 <= end <= text.len(),
        forall|i: int| 0 <= i < end ==> text[i] != '\n',
        end < text.len() ==> text[end] == '\n',
    ensures
        first_line_len(text) == end,
    decreases end,
{
    if end > 0 {
        lemma_first_line(text.drop_first(), end - 1);
    }
}

/// What is written for a task is read back as that task, as long as its
/// name holds no line feed.
pub proof fn lemma_decode_encoded(task: TaskModel)
    requires
        !task.name.contains('\n'),
    ensures
        decoded(encoded(task)) == Some(task),
{
    let content = encoded(task);
    let end = task.name.len() as int;
    assert forall|i: int| 0 <= i < end implies content[i] != '\n' by {
        assert(task.name.contains(task.name[i]));
    }
    lemma_first_line(content, end);
    assert(content.skip(end + 1) =~= task.status.tag_text());
    assert(content.take(end) =~= task.name);
    lemma_parse_tag(task.status);
}

/// What is read from a text is a task whose name holds no line feed, and
/// which is written as that text: no two texts stand for the same task.
pub proof fn lemma_decoded_name(content: Seq<char>)
    ensures
        decoded(content) matches Some(task) ==> !task.name.contains('\n') && encoded(task)
            == content,
{
    if decoded(content) is Some {
        let task = decoded(content)->0;
        let end = first_line_len(content);
        lemma_first_line_is_first(content);
        if task.name.contains('\n') {
            let i = choose|i: int| 0 <= i < task.name.len() && task.name[i] == '\n';
            assert(content[i] == '\n');
        }
        lemma_tag_parsed(content.skip(end + 1));
        assert(encoded(task) =~= content);
    }
}

/// No line feed stands before the end of the first line, and one stands
/// there unless the text ends.
pub proof fn lemma_first_line_is_first(text: Seq<char>)
    ensures
        0 <= first_line_len(text) <= text.len(),
        forall|i: int| 0 <= i < first_line_len(text) ==> text[i] != '\n',
        first_line_len(text) < text.len() ==> text[first_line_len(text)] == '\n',
    decreases text.len(),
{
    if !(text.len() == 0 || text[0] == '\n') {
        let rest = text.drop_first();
        lemma_first_line_is_first(rest);
        assert forall|i: int| 0 <= i < first_line_len(text) implies text[i] != '\n' by {
            if i > 0 {
                assert(text[i] == rest[i - 1]);
            }
        }
    }
}

/// A name that stands for a status is the name of that status.
pub proof fn lemma_tag_parsed(tag: Seq<char>)
    ensures
        Status::parsed(tag) matches Some(status) ==> status.tag_text() == tag,
{
}

/// A run of digits stands for no less than any of its beginnings.
pub proof fn lemma_number_grows(digits: Seq<char>, len: int)
    requires
        0 <= len <= digits.len(),
    ensures
        number(digits.take(len)) <= number(digits),
    decreases digits.len() - len,
{
    if len < digits.len() {
        let longer = digits.take(len + 1);
        assert(longer.drop_last() =~= digits.take(len));
        lemma_number_grows(digits, len + 1);
    } else {
        assert(digits.take(len) =~= digits);
    }
}

/// The digit for a number below ten, as a text of one character.
fn digit_str(value: usize) -> (r: &'static str)
    requires
        value < 10,
    ensures
        r@ == seq![digit(value as nat)],
{
    proof {
        reveal_strlit("0");
        reveal_strlit("1");
        reveal_strlit("2");
        reveal_strlit("3");
        reveal_strlit("4");
        reveal_strlit("5");
        reveal_strlit("6");
        reveal_strlit("7");
        reveal_strlit("8");
        reveal_strlit("9");
    }
    let r = if value == 0 {
        "0"
    } else if value == 1 {
        "1"
    } else if value == 2 {
        "2"
    } else if value == 3 {
        "3"
    } else if value == 4 {
        "4"
    } else if value == 5 {
        "5"
    } else if value == 6 {
        "6"
    } else if value == 7 {
        "7"
    } else if value == 8 {
        "8"
    } else {
        "9"
    };
    assert(r@ =~= seq![digit(value as nat)]);
    r
}

/// How many digits a number has.
pub fn decimal_len(n: usize) -> (r: usize)
    ensures
        r == decimal(n as nat).len(),
{
    let mut rest = n;
    let mut count: usize = 1;
    while rest >= 10
        invariant
            1 <= count,
            count - 1 + rest <= n,
            decimal(n as nat).len() == decimal(rest as nat).len() + count - 1,
        decreases rest,
    {
        rest = rest / 10;
        count = count + 1;
    }
    count
}

/// Writes a number in decimal digits behind what `out` holds.
fn push_decimal(out: &mut String, n: usize)
    ensures
        final(out)@ == old(out)@ + decimal(n as nat),
    decreases n,
{
    if n >= 10 {
        push_decimal(out, n / 10);
    }
    out.append(digit_str(n % 10));
    assert(out@ =~= old(out)@ + decimal(n as nat));
}

/// The name of the file that keeps the task with the given identifier: the
/// identifier in decimal, at least five digits wide.
pub fn name_of(id: usize) -> (r: String)
    ensures
        r@ == entry_name(id),
{
    let mut name = String::new();
    let len = decimal_len(id);
    proof {
        reveal_strlit("0");
        assert("0"@ =~= seq!['0']);
    }
    if len < NAME_WIDTH {
        let count = NAME_WIDTH - len;
        for i in 0..count
            invariant
                name@ == zeros(i as nat),
                "0"@ == seq!['0'],
        {
            name.append("0");
            assert(name@ =~= zeros((i + 1) as nat));
        }
    } else {
        assert(name@ =~= zeros(0));
    }
    push_decimal(&mut name, id);
    assert(name@ =~= entry_name(id));
    name
}

/// Where the file of a task is found: its name, below the directory.
pub fn path_of(dir: &str, id: usize) -> (r: String)
    ensures
        r@ == file_path(dir@, id),
{
    let mut path = String::from_str(dir);
    proof {
        reveal_strlit("/");
        assert("/"@ =~= seq!['/']);
    }
    path.append("/");
    let name = name_of(id);
    path.append(name.as_str());
    assert(path@ =~= file_path(dir@, id));
    path
}

/// Reads the identifier that the name of a file stands for.
pub fn parse_id(name: &str) -> (r: Option<usize>)
    ensures
        r == parsed_id(name@),
{
    let ghost signed = name@.len() > 0 && name@[0] == '+';
    let ghost start: int = if signed { 1 } else { 0 };
    let ghost digits = name@.skip(start);
    let mut at_start = true;
    let mut any = false;
    let mut valid = true;
    let mut value: usize = 0;
    for c in it: name.chars()
        invariant
            it.seq() == name@,
            signed == (name@.len() > 0 && name@[0] == '+'),
            start == (if signed { 1int } else { 0int }),
            digits == name@.skip(start),
            at_start == (it.index() == 0),
            any == (it.index() > start),
            it.index() == 0 ==> valid && value == 0,
            valid && it.index() >= start ==> all_digits(digits.take(it.index() - start)),
            valid && it.index() >= start ==> value == number(digits.take(it.index() - start)),
            !valid ==> !all_digits(digits) || number(digits) > usize::MAX,
    {
        let ghost index = it.index() as int;
        proof {
            assert(digits.take(0) =~= Seq::<char>::empty());
        }
        if at_start && c == '+' {
            at_start = false;
        } else {
            at_start = false;
            any = true;
            let ghost seen = digits.take(index - start);
            let ghost more = digits.take(index - start + 1);
            proof {
                assert(index >= start);
                assert(digits[index - start] == c);
                assert(more.drop_last() =~= seen);
                assert(more.last() == c);
            }
            if valid {
                if '0' <= c && c <= '9' {
                    let d = (c as u32 - '0' as u32) as usize;
                    proof {
                        assert(d == digit_value(c));
                        assert(number(more) == value * 10 + d);
                        assert forall|i: int| 0 <= i < more.len() implies is_digit(
                            #[trigger] more[i],
                        ) by {
                            if i < seen.len() {
                                assert(more[i] == seen[i]);
                            }
                        }
                    }
                    if value > (usize::MAX - d) / 10 {
                        valid = false;
                        proof {
                            lemma_number_grows(digits, index - start + 1);
                        }
                    } else {
                        value = value * 10 + d;
                    }
                } else {
                    valid = false;
                    assert(!is_digit(digits[index - start]));
                }
            }
        }
    }
    proof {
        let given = if name@.len() > 0 && name@[0] == '+' {
            name@.drop_first()
        } else {
            name@
        };
        assert(given =~= digits);
        if name@.len() >= start {
            assert(digits.take(name@.len() - start) =~= digits);
        }
        assert(any == (name@.len() > start));
    }
    if valid && any {
        Some(value)
    } else {
        None
    }
}

/// What is to be written to the file of a task: its name, a line feed, and
/// the name of its status.
pub fn encode(task: &BasicTask) -> (r: String)
    ensures
        r@ == encoded(task@),
{
    let mut content = String::from_str(task.name.as_str());
    proof {
        reveal_strlit("\n");
        assert("\n"@ =~= seq!['\n']);
    }
    content.append("\n");
    content.append(task.status.tag());
    assert(content@ =~= encoded(task@));
    content
}

/// Reads a task back from the content of its file.
pub fn decode(content: &str) -> (r: Option<BasicTask>)
    ensures
        match r {
            Some(task) => decoded(content@) == Some(task@),
            None => decoded(content@) is None,
        },
{
    let len = content.unicode_len();
    let mut end: usize = 0;
    let mut found = false;
    for c in it: content.chars()
        invariant
            it.seq() == content@,
            len == content@.len(),
            found ==> end < it.index() && content@[end as int] == '\n',
            !found ==> end == it.index(),
            forall|i: int| 0 <= i < end ==> content@[i] != '\n',
    {
        if !found {
            if c == '\n' {
                found = true;
            } else {
                end = end + 1;
            }
        }
    }
    proof {
        lemma_first_line(content@, end as int);
    }
    if !found {
        return None;
    }
    let name = content.substring_char(0, end);
    let tag = content.substring_char(end + 1, len);
    assert(name@ =~= content@.take(end as int));
    assert(tag@ =~= content@.skip(end + 1));
    match Status::parse(tag) {
        Some(status) => Some(BasicTask { status, name: String::from_str(name) }),
        None => None,
    }
}

} // verus!
