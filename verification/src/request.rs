//! What a client writes on the control channel.

use vstd::prelude::*;
use crate::command::{
    all_digits, decimal_value, is_digit, is_free_of, is_space, is_word, joined,
    law_pieces_of_joined_are_the_pieces, law_space_adds_no_word, law_word_after_space, number_of,
    parse, port_of, words, CommandView,
};
use crate::symbols::symbols_of;

verus! {

/// The digit that writes `d`, for `d` from 0 to 9.
pub open spec fn digit_of(d: nat) -> char {
    ((0x30 + d) as u8) as char
}

/// `n` written in base ten, without leading zeros.
pub open spec fn decimal_text(n: nat) -> Seq<char>
    decreases n,
{
    if n < 10 {
        seq![digit_of(n)]
    } else {
        decimal_text(n / 10).push(digit_of(n % 10))
    }
}

/// The line that asks for quotes on `port`, of `symbols` or, where the
/// list is empty, of every instrument; without its line ending.
pub open spec fn command_text(port: u16, symbols: Seq<Seq<char>>) -> Seq<char> {
    "STREAM"@.push(' ') + decimal_text(port as nat).push(' ') + joined(symbols, ',')
}

/// The digit that writes `d`.
fn digit_text(d: u16) -> (text: &'static str)
    requires
        d < 10,
    ensures
        text@ == seq![digit_of(d as nat)],
{
    proof {
        reveal_strlit("0");
        reveal_strlit("1");
        reveal_strlit("2");
        reveal_strlit("3");
        reveal_strlit("4");
        reveal_strlit("5");
        reveal_strlit("6");
        reveal_strlit("7");
        reveal_strlit("8");
        reveal_strlit("9");
    }
    let text = match d {
        0 => "0",
        1 => "1",
        2 => "2",
        3 => "3",
        4 => "4",
        5 => "5",
        6 => "6",
        7 => "7",
        8 => "8",
        _ => "9",
    };
    assert(text@ =~= seq![digit_of(d as nat)]);
    text
}

/// `port` written in base ten: see [`decimal_text`].
pub fn port_text(port: u16) -> (text: String)
    ensures
        text@ == decimal_text(port as nat),
    decreases port,
{
    if port < 10 {
        digit_text(port).to_owned()
    } else {
        let mut text = port_text(port / 10);
        let last = digit_text(port % 10);
        text.append(last);
        assert(text@ =~= decimal_text(port as nat / 10).push(digit_of(port as nat % 10)));
        text
    }
}

/// The symbols of `list` with commas between them.
pub fn join_symbols(list: &Vec<String>) -> (text: String)
    ensures
        text@ == joined(symbols_of(list@), ','),
{
    let mut text = String::new();
    let mut i: usize = 0;
    let ghost all = symbols_of(list@);
    assert(all.take(0) =~= Seq::<Seq<char>>::empty());
    while i < list.len()
        invariant
            i <= list.len(),
            all == symbols_of(list@),
            text@ == joined(all.take(i as int), ','),
        decreases list.len() - i,
    {
        let ghost before = text@;
        proof {
            assert(all.take(i + 1).drop_last() =~= all.take(i as int));
            assert(all.take(i + 1).last() == list@[i as int]@);
            reveal_strlit(",");
            assert(","@ =~= seq![',']);
        }
        if i > 0 {
            text.append(",");
            assert(text@ =~= before.push(','));
        } else {
            assert(all.take(1)[0] == list@[0]@);
            assert(before =~= Seq::<char>::empty());
        }
        text.append(list[i].as_str());
        proof {
            if i == 0 {
                assert(text@ =~= list@[0]@);
            }
        }
        i += 1;
    }
    assert(all.take(list.len() as int) =~= all);
    text
}

/// The line that asks for quotes on `port`: see [`command_text`].
pub fn stream_command(port: u16, symbols: &Vec<String>) -> (line: String)
    ensures
        line@ == command_text(port, symbols_of(symbols@)),
{
    let mut line = "STREAM ".to_owned();
    let number = port_text(port);
    line.append(number.as_str());
    line.append(" ");
    let list = join_symbols(symbols);
    line.append(list.as_str());
    proof {
        reveal_strlit("STREAM ");
        reveal_strlit("STREAM");
        reveal_strlit(" ");
        assert("STREAM "@ =~= "STREAM"@.push(' '));
        assert(" "@ =~= seq![' ']);
        assert(line@ =~= command_text(port, symbols_of(symbols@)));
    }
    line
}

/// A number written by [`decimal_text`] reads as that number.
pub proof fn law_written_number_reads_back(n: nat)
    ensures
        decimal_text(n).len() > 0,
        all_digits(decimal_text(n)),
        decimal_value(decimal_text(n)) == n,
    decreases n,
{
    if n < 10 {
        assert(decimal_text(n).drop_last() =~= Seq::<char>::empty());
        assert(decimal_value(Seq::<char>::empty()) == 0);
        assert(digit_of(n) as u32 == 0x30 + n);
    } else {
        let front = decimal_text(n / 10);
        let last = digit_of(n % 10);
        law_written_number_reads_back(n / 10);
        assert(front.push(last).drop_last() =~= front);
        assert(last as u32 == 0x30 + n % 10);
        assert forall|i: int| 0 <= i < decimal_text(n).len() implies is_digit(
            #[trigger] decimal_text(n)[i],
        ) by {
            if i < front.len() {
                assert(decimal_text(n)[i] == front[i]);
            }
        }
    }
}

/// A port written by [`decimal_text`] reads as that port.
pub proof fn law_written_port_reads_back(port: u16)
    ensures
        port_of(decimal_text(port as nat)) == Some(port),
        is_word(decimal_text(port as nat)),
{
    let text = decimal_text(port as nat);
    law_written_number_reads_back(port as nat);
    assert(is_digit(text[0]));
    assert(number_of(text) == Some(port));
    assert forall|i: int| 0 <= i < text.len() implies !is_space(#[trigger] text[i]) by {
        assert(is_digit(text[i]));
    }
}

/// Symbols without spaces, put together with commas, hold no space.
proof fn lemma_joined_holds_no_space(symbols: Seq<Seq<char>>)
    requires
        forall|k: int, i: int|
            0 <= k < symbols.len() && 0 <= i < symbols[k].len() ==> !is_space(
                #[trigger] symbols[k][i],
            ),
    ensures
        forall|i: int|
            0 <= i < joined(symbols, ',').len() ==> !is_space(#[trigger] joined(symbols, ',')[i]),
        symbols.len() == 0 ==> joined(symbols, ',').len() == 0,
    decreases symbols.len(),
{
    if symbols.len() == 1 {
        assert forall|i: int| 0 <= i < symbols[0].len() implies !is_space(
            #[trigger] joined(symbols, ',')[i],
        ) by {
            assert(!is_space(symbols[0][i]));
        }
    } else if symbols.len() > 1 {
        let front = symbols.drop_last();
        assert forall|k: int, i: int| 0 <= k < front.len() && 0 <= i < front[k].len() implies !is_space(
            #[trigger] front[k][i],
        ) by {
            assert(front[k] == symbols[k]);
            assert(!is_space(symbols[k][i]));
        }
        lemma_joined_holds_no_space(front);
        let head = joined(front, ',').push(',');
        let last = symbols.last();
        assert forall|i: int| 0 <= i < joined(symbols, ',').len() implies !is_space(
            #[trigger] joined(symbols, ',')[i],
        ) by {
            if i < head.len() - 1 {
                assert(joined(symbols, ',')[i] == joined(front, ',')[i]);
            } else if i == head.len() - 1 {
                assert(joined(symbols, ',')[i] == ',');
            } else {
                assert(joined(symbols, ',')[i] == last[i - head.len()]);
                assert(!is_space(symbols[symbols.len() - 1][i - head.len()]));
            }
        }
    }
}

/// The server reads what the client writes: the line for `port` and
/// `symbols`, none of which holds a space or a comma, is the command to
/// stream to `port` the quotes of `symbols` or, where the symbols put
/// together are no text at all, those of every instrument.
pub proof fn law_server_reads_what_client_writes(port: u16, symbols: Seq<Seq<char>>)
    requires
        forall|k: int| 0 <= k < symbols.len() ==> is_free_of(#[trigger] symbols[k], ','),
        forall|k: int, i: int|
            0 <= k < symbols.len() && 0 <= i < symbols[k].len() ==> !is_space(
                #[trigger] symbols[k][i],
            ),
    ensures
        parse(command_text(port, symbols)) == Ok::<Option<CommandView>, crate::error::SessionError>(
            Some(
                CommandView::Stream {
                    port,
                    watch_list: if joined(symbols, ',').len() == 0 {
                        None
                    } else {
                        Some(symbols)
                    },
                },
            ),
        ),
{
    reveal_strlit("STREAM");
    reveal_strlit("EXIT");
    let name = "STREAM"@;
    let number = decimal_text(port as nat);
    let list = joined(symbols, ',');
    let nothing = Seq::<char>::empty();
    assert(is_word(name));
    assert(words(nothing) =~= Seq::<Seq<char>>::empty());
    law_word_after_space(nothing, name);
    assert(nothing + name =~= name);
    law_space_adds_no_word(name, ' ');
    law_written_port_reads_back(port);
    law_word_after_space(name.push(' '), number);
    law_space_adds_no_word(name.push(' ') + number, ' ');
    let head = (name.push(' ') + number).push(' ');
    assert(words(head) =~= seq![name, number]);
    lemma_joined_holds_no_space(symbols);
    if list.len() == 0 {
        assert(command_text(port, symbols) =~= head);
    } else {
        law_word_after_space(head, list);
        assert(command_text(port, symbols) =~= head + list);
        assert(words(head + list) =~= seq![name, number, list]);
        law_pieces_of_joined_are_the_pieces(symbols, ',');
    }
}

} // verus!
