//! Text as a list of one-character tokens, each with its own format, and the
//! ANSI colour table it is printed with.

use crate::chars::{char_string, copy_string, push_str, to_chars};
use crate::unicode::{nfc, nfc_form};
use vstd::prelude::*;

verus! {

/// What can be added to a [`Text`].
pub enum AddValue {
    Str(String),
    Token(Token),
    Text(Text),
    Tuple((String, String)),
}

/// The colour table.
pub struct AnsiColor;

/// The escape sequence of a colour key, empty for other characters.
pub open spec fn color_code(key: char) -> Seq<char> {
    if key == '.' {
        "\x1b[0m"@
    } else if key == '*' {
        "\x1b[1m"@
    } else if key == '/' {
        "\x1b[3m"@
    } else if key == '_' {
        "\x1b[4m"@
    } else if key == 'k' {
        "\x1b[30m"@
    } else if key == 'r' {
        "\x1b[31m"@
    } else if key == 'g' {
        "\x1b[32m"@
    } else if key == 'y' {
        "\x1b[33m"@
    } else if key == 'b' {
        "\x1b[34m"@
    } else if key == 'm' {
        "\x1b[35m"@
    } else if key == 'c' {
        "\x1b[36m"@
    } else if key == 'w' {
        "\x1b[37m"@
    } else if key == 'K' {
        "\x1b[40m"@
    } else if key == 'W' {
        "\x1b[47m"@
    } else if key == 'R' {
        "\x1b[41m"@
    } else if key == 'G' {
        "\x1b[42m"@
    } else if key == 'Y' {
        "\x1b[43m"@
    } else if key == 'B' {
        "\x1b[44m"@
    } else if key == 'M' {
        "\x1b[45m"@
    } else if key == 'C' {
        "\x1b[46m"@
    } else {
        ""@
    }
}

/// The foreground colour keys in the order of the ANSI colour numbers 0 to
/// 7: black, red, green, yellow, blue, magenta, cyan, white.
pub open spec fn fg_keys() -> Seq<char> {
    seq!['k', 'r', 'g', 'y', 'b', 'm', 'c', 'w']
}

/// The background colour keys, in the same order.
pub open spec fn bg_keys() -> Seq<char> {
    seq!['K', 'R', 'G', 'Y', 'B', 'M', 'C', 'W']
}

/// The decimal digits 0 to 7.
pub open spec fn sgr_digits() -> Seq<char> {
    seq!['0', '1', '2', '3', '4', '5', '6', '7']
}

/// The SGR escape sequence `ESC [ code m`.
pub open spec fn sgr_code(code: Seq<char>) -> Seq<char> {
    seq!['\x1b', '['] + code + seq!['m']
}

/// Each colour key gives the standard SGR code of its colour: the `i`-th
/// foreground key `ESC[3im`, the `i`-th background key `ESC[4im`; the
/// attribute keys `.`, `*`, `/`, `_` give reset, bold, italic and underline
/// (`ESC[0m`, `ESC[1m`, `ESC[3m`, `ESC[4m`). So distinct colour keys give
/// distinct codes.
pub proof fn lemma_colour_codes()
    ensures
        forall|i: int| 0 <= i < 8 ==> color_code(#[trigger] fg_keys()[i]) == sgr_code(seq!['3', sgr_digits()[i]]),
        forall|i: int| 0 <= i < 8 ==> color_code(#[trigger] bg_keys()[i]) == sgr_code(seq!['4', sgr_digits()[i]]),
        color_code('.') == sgr_code(seq!['0']),
        color_code('*') == sgr_code(seq!['1']),
        color_code('/') == sgr_code(seq!['3']),
        color_code('_') == sgr_code(seq!['4']),
{
    reveal_strlit("\x1b[30m");
    reveal_strlit("\x1b[40m");
    assert(color_code('k') =~= sgr_code(seq!['3', '0']));
    assert(color_code('K') =~= sgr_code(seq!['4', '0']));
    reveal_strlit("\x1b[31m");
    reveal_strlit("\x1b[41m");
    assert(color_code('r') =~= sgr_code(seq!['3', '1']));
    assert(color_code('R') =~= sgr_code(seq!['4', '1']));
    reveal_strlit("\x1b[32m");
    reveal_strlit("\x1b[42m");
    assert(color_code('g') =~= sgr_code(seq!['3', '2']));
    assert(color_code('G') =~= sgr_code(seq!['4', '2']));
    reveal_strlit("\x1b[33m");
    reveal_strlit("\x1b[43m");
    assert(color_code('y') =~= sgr_code(seq!['3', '3']));
    assert(color_code('Y') =~= sgr_code(seq!['4', '3']));
    reveal_strlit("\x1b[34m");
    reveal_strlit("\x1b[44m");
    assert(color_code('b') =~= sgr_code(seq!['3', '4']));
    assert(color_code('B') =~= sgr_code(seq!['4', '4']));
    reveal_strlit("\x1b[35m");
    reveal_strlit("\x1b[45m");
    assert(color_code('m') =~= sgr_code(seq!['3', '5']));
    assert(color_code('M') =~= sgr_code(seq!['4', '5']));
    reveal_strlit("\x1b[36m");
    reveal_strlit("\x1b[46m");
    assert(color_code('c') =~= sgr_code(seq!['3', '6']));
    assert(color_code('C') =~= sgr_code(seq!['4', '6']));
    reveal_strlit("\x1b[37m");
    reveal_strlit("\x1b[47m");
    assert(color_code('w') =~= sgr_code(seq!['3', '7']));
    assert(color_code('W') =~= sgr_code(seq!['4', '7']));
    reveal_strlit("\x1b[0m");
    reveal_strlit("\x1b[1m");
    reveal_strlit("\x1b[3m");
    reveal_strlit("\x1b[4m");
    assert(color_code('.') =~= sgr_code(seq!['0']));
    assert(color_code('*') =~= sgr_code(seq!['1']));
    assert(color_code('/') =~= sgr_code(seq!['3']));
    assert(color_code('_') =~= sgr_code(seq!['4']));
    assert forall|i: int| 0 <= i < 8 implies color_code(#[trigger] fg_keys()[i]) == sgr_code(seq!['3', sgr_digits()[i]])
        && color_code(bg_keys()[i]) == sgr_code(seq!['4', sgr_digits()[i]]) by {
        if i == 0 {
            assert(fg_keys()[i] == 'k' && bg_keys()[i] == 'K' && sgr_digits()[i] == '0');
        } else if i == 1 {
            assert(fg_keys()[i] == 'r' && bg_keys()[i] == 'R' && sgr_digits()[i] == '1');
        } else if i == 2 {
            assert(fg_keys()[i] == 'g' && bg_keys()[i] == 'G' && sgr_digits()[i] == '2');
        } else if i == 3 {
            assert(fg_keys()[i] == 'y' && bg_keys()[i] == 'Y' && sgr_digits()[i] == '3');
        } else if i == 4 {
            assert(fg_keys()[i] == 'b' && bg_keys()[i] == 'B' && sgr_digits()[i] == '4');
        } else if i == 5 {
            assert(fg_keys()[i] == 'm' && bg_keys()[i] == 'M' && sgr_digits()[i] == '5');
        } else if i == 6 {
            assert(fg_keys()[i] == 'c' && bg_keys()[i] == 'C' && sgr_digits()[i] == '6');
        } else if i == 7 {
            assert(fg_keys()[i] == 'w' && bg_keys()[i] == 'W' && sgr_digits()[i] == '7');
        }
    }
    assert forall|i: int| 0 <= i < 8 implies color_code(#[trigger] bg_keys()[i]) == sgr_code(seq!['4', sgr_digits()[i]]) by {
        assert(color_code(fg_keys()[i]) == sgr_code(seq!['3', sgr_digits()[i]]));
    }
}

/// The escape sequences of several colour keys, in order.
pub open spec fn color_codes(mods: Seq<char>) -> Seq<char>
    decreases mods.len(),
{
    if mods.len() == 0 {
        Seq::empty()
    } else {
        color_codes(mods.drop_last()) + color_code(mods.last())
    }
}

/// `text` coloured by the keys of `mods`, followed by a reset when there are
/// any keys.
pub open spec fn colour_spec(mods: Seq<char>, text: Seq<char>) -> Seq<char> {
    color_codes(mods) + text + if mods.len() > 0 {
        "\x1b[0m"@
    } else {
        Seq::empty()
    }
}

impl AnsiColor {
    /// The escape sequence of a colour key; empty for other characters.
    pub fn get(key: char) -> (r: &'static str)
        ensures
            r@ == color_code(key),
    {
        match key {
            '.' => "\x1b[0m",
            '*' => "\x1b[1m",
            '/' => "\x1b[3m",
            '_' => "\x1b[4m",
            'k' => "\x1b[30m",
            'r' => "\x1b[31m",
            'g' => "\x1b[32m",
            'y' => "\x1b[33m",
            'b' => "\x1b[34m",
            'm' => "\x1b[35m",
            'c' => "\x1b[36m",
            'w' => "\x1b[37m",
            'K' => "\x1b[40m",
            'W' => "\x1b[47m",
            'R' => "\x1b[41m",
            'G' => "\x1b[42m",
            'Y' => "\x1b[43m",
            'B' => "\x1b[44m",
            'M' => "\x1b[45m",
            'C' => "\x1b[46m",
            _ => "",
        }
    }

    /// `text` in the colours of `modifiers` when colouring is `enabled`;
    /// the text alone when it is not.
    pub fn colour_if(enabled: bool, modifiers: &str, text: &str) -> (r: String)
        ensures
            r@ == if enabled {
                colour_spec(modifiers@, text@)
            } else {
                text@
            },
    {
        if !enabled {
            return text.to_string();
        }
        AnsiColor::colour(modifiers, text)
    }

    /// `text` coloured by the keys of `modifiers`, followed by a reset when
    /// there are any keys.
    pub fn colour(modifiers: &str, text: &str) -> (r: String)
        ensures
            r@ == colour_spec(modifiers@, text@),
    {
        let mods = to_chars(modifiers);
        let mut output = String::new();
        let mut i: usize = 0;
        assert(mods@.take(0) =~= Seq::<char>::empty());
        while i < mods.len()
            invariant
                mods@ == modifiers@,
                i <= mods@.len(),
                output@ == color_codes(mods@.take(i as int)),
            decreases mods.len() - i,
        {
            let val = AnsiColor::get(mods[i]);
            if !val.is_empty() {
                push_str(&mut output, val);
            }
            assert(mods@.take(i + 1).drop_last() =~= mods@.take(i as int));
            assert(output@ =~= color_codes(mods@.take(i + 1)));
            i = i + 1;
        }
        assert(mods@.take(mods@.len() as int) =~= mods@);
        push_str(&mut output, text);
        if mods.len() > 0 {
            push_str(&mut output, AnsiColor::get('.'));
        } else {
            assert(output@ =~= output@ + Seq::<char>::empty());
        }
        output
    }
}

/// One piece of text with its format.
#[derive(Debug)]
pub struct Token {
    pub text: String,
    pub fmt: String,
}

impl Clone for Token {
    fn clone(&self) -> (r: Self)
        ensures
            r.text@ == self.text@,
            r.fmt@ == self.fmt@,
    {
        Token { text: copy_string(&self.text), fmt: copy_string(&self.fmt) }
    }
}

impl PartialEq for Token {
    fn eq(&self, other: &Self) -> (r: bool) {
        self.text == other.text && self.fmt == other.fmt
    }
}

impl vstd::std_specs::cmp::PartialEqSpecImpl for Token {
    open spec fn obeys_eq_spec() -> bool {
        true
    }

    open spec fn eq_spec(&self, other: &Self) -> bool {
        self.text@ == other.text@ && self.fmt@ == other.fmt@
    }
}

impl Token {
    /// A token of `text` in `fmt`.
    pub fn new(text: String, fmt: String) -> (r: Self)
        ensures
            r.text@ == text@,
            r.fmt@ == fmt@,
    {
        Token { text, fmt }
    }

    /// Replaces the text.
    pub fn set_text(&mut self, text: String) -> (r: &mut Self)
        ensures
            r.text@ == text@,
            r.fmt@ == old(self).fmt@,
            *final(self) == *final(r),
    {
        self.text = text;
        self
    }

    /// Replaces the format.
    pub fn set_fmt(&mut self, fmt: String) -> (r: &mut Self)
        ensures
            r.fmt@ == fmt@,
            r.text@ == old(self).text@,
            *final(self) == *final(r),
    {
        self.fmt = fmt;
        self
    }
}

/// Formatted text: a list of tokens.
#[derive(Debug)]
pub struct Text {
    pub value: String,
    pub data: Vec<Token>,
    pub fmt: String,
}

/// The tokens as (text, format) pairs.
pub open spec fn tokens_view(v: Seq<Token>) -> Seq<(Seq<char>, Seq<char>)> {
    Seq::new(v.len(), |i: int| (v[i].text@, v[i].fmt@))
}

/// One token per character of `s`, all in `fmt`.
pub open spec fn char_tokens(s: Seq<char>, fmt: Seq<char>) -> Seq<(Seq<char>, Seq<char>)> {
    Seq::new(s.len(), |i: int| (seq![s[i]], fmt))
}

/// The texts of tokens, one after another.
pub open spec fn tokens_str(ts: Seq<(Seq<char>, Seq<char>)>) -> Seq<char>
    decreases ts.len(),
{
    if ts.len() == 0 {
        Seq::empty()
    } else {
        tokens_str(ts.drop_last()) + ts.last().0
    }
}

/// The tokens that adding a value appends.
pub open spec fn added_tokens(value: AddValue) -> Seq<(Seq<char>, Seq<char>)> {
    match value {
        AddValue::Str(s) => char_tokens(nfc_form(s@), Seq::empty()),
        AddValue::Token(t) => char_tokens(nfc_form(t.text@), t.fmt@),
        AddValue::Tuple((f, t)) => char_tokens(nfc_form(t@), f@),
        AddValue::Text(t) => tokens_view(t.data@),
    }
}

/// The text a value contributes when it is added with a format of its own.
pub open spec fn value_text(value: AddValue) -> Seq<char> {
    match value {
        AddValue::Str(s) => s@,
        AddValue::Token(t) => t.text@,
        AddValue::Tuple((_f, t)) => t@,
        AddValue::Text(t) => tokens_str(tokens_view(t.data@)),
    }
}

impl Clone for Text {
    fn clone(&self) -> (r: Self)
        ensures
            r.value@ == self.value@,
            tokens_view(r.data@) == tokens_view(self.data@),
            r.fmt@ == self.fmt@,
    {
        let mut data: Vec<Token> = Vec::new();
        let mut i: usize = 0;
        while i < self.data.len()
            invariant
                i <= self.data@.len(),
                data@.len() == i,
                forall|j: int| 0 <= j < i ==> #[trigger] data@[j].text@ == self.data@[j].text@
                    && data@[j].fmt@ == self.data@[j].fmt@,
            decreases self.data.len() - i,
        {
            data.push(self.data[i].clone());
            i = i + 1;
        }
        assert(tokens_view(data@) =~= tokens_view(self.data@));
        Text { value: copy_string(&self.value), data, fmt: copy_string(&self.fmt) }
    }
}

impl Text {
    /// An empty text with the given value and format (empty when absent).
    pub fn new(value: Option<String>, fmt: Option<String>) -> (r: Self)
        ensures
            r.value@ == match value {
                Some(v) => v@,
                None => Seq::empty(),
            },
            r.fmt@ == match fmt {
                Some(f) => f@,
                None => Seq::empty(),
            },
            r.data@.len() == 0,
    {
        Text {
            data: Vec::new(),
            value: match value {
                Some(v) => v,
                None => String::new(),
            },
            fmt: match fmt {
                Some(f) => f,
                None => String::new(),
            },
        }
    }

    /// The texts of the tokens, one after another.
    pub fn get_str(&self) -> (r: String)
        ensures
            r@ == tokens_str(tokens_view(self.data@)),
    {
        let ghost tv = tokens_view(self.data@);
        let mut out = String::new();
        let mut i: usize = 0;
        assert(tv.take(0) =~= Seq::<(Seq<char>, Seq<char>)>::empty());
        while i < self.data.len()
            invariant
                tv == tokens_view(self.data@),
                i <= tv.len(),
                out@ == tokens_str(tv.take(i as int)),
            decreases self.data.len() - i,
        {
            push_str(&mut out, self.data[i].text.as_str());
            assert(tv.take(i + 1).drop_last() =~= tv.take(i as int));
            i = i + 1;
        }
        assert(tv.take(tv.len() as int) =~= tv);
        out
    }

    /// Appends one token per character of `s`, all in `fmt`.
    fn push_chars(&mut self, s: &str, fmt: &String)
        ensures
            tokens_view(final(self).data@) == tokens_view(old(self).data@) + char_tokens(s@, fmt@),
            final(self).value@ == old(self).value@,
            final(self).fmt@ == old(self).fmt@,
    {
        let v = to_chars(s);
        let ghost d0 = self.data@;
        let mut i: usize = 0;
        while i < v.len()
            invariant
                v@ == s@,
                i <= v@.len(),
                self.data@.len() == d0.len() + i,
                forall|j: int| 0 <= j < d0.len() ==> #[trigger] self.data@[j] == d0[j],
                forall|j: int| 0 <= j < i ==> #[trigger] self.data@[d0.len() + j].text@ == seq![s@[j]]
                    && self.data@[d0.len() + j].fmt@ == fmt@,
                self.value@ == old(self).value@,
                self.fmt@ == old(self).fmt@,
                d0 == old(self).data@,
            decreases v.len() - i,
        {
            self.data.push(Token { text: char_string(v[i]), fmt: copy_string(fmt) });
            i = i + 1;
        }
        assert(tokens_view(self.data@) =~= tokens_view(d0) + char_tokens(s@, fmt@)) by {
            assert forall|j: int| d0.len() <= j < self.data@.len() implies
                #[trigger] tokens_view(self.data@)[j] == char_tokens(s@, fmt@)[j - d0.len()] by {
                assert(self.data@[d0.len() + (j - d0.len())].text@ == seq![s@[j - d0.len()]]);
            }
        }
    }

    /// Appends a value: strings are normalized to NFC and split into one
    /// token per character (a string alone in no format, a token or pair in
    /// its own); a text contributes its tokens as they are.
    pub fn add(&mut self, value: Option<AddValue>) -> (r: &mut Self)
        ensures
            tokens_view(r.data@) == tokens_view(old(self).data@) + match value {
                Some(v) => added_tokens(v),
                None => Seq::empty(),
            },
            r.value@ == old(self).value@,
            r.fmt@ == old(self).fmt@,
            *final(self) == *final(r),
    {
        match value {
            None => {
                assert(tokens_view(self.data@) =~= tokens_view(self.data@) + Seq::<(Seq<char>, Seq<char>)>::empty());
            },
            Some(AddValue::Str(valor)) => {
                let norm = nfc(valor.as_str());
                let empty = String::new();
                self.push_chars(norm.as_str(), &empty);
            },
            Some(AddValue::Token(token)) => {
                let norm = nfc(token.text.as_str());
                self.push_chars(norm.as_str(), &token.fmt);
            },
            Some(AddValue::Tuple(tupl)) => {
                let (fmt, text) = tupl;
                let norm = nfc(text.as_str());
                self.push_chars(norm.as_str(), &fmt);
            },
            Some(AddValue::Text(val)) => {
                let ghost d0 = self.data@;
                let mut i: usize = 0;
                while i < val.data.len()
                    invariant
                        i <= val.data@.len(),
                        self.data@.len() == d0.len() + i,
                        forall|j: int| 0 <= j < d0.len() ==> #[trigger] self.data@[j] == d0[j],
                        forall|j: int| 0 <= j < i ==> #[trigger] self.data@[d0.len() + j].text@ == val.data@[j].text@
                            && self.data@[d0.len() + j].fmt@ == val.data@[j].fmt@,
                        self.value@ == old(self).value@,
                        self.fmt@ == old(self).fmt@,
                        d0 == old(self).data@,
                    decreases val.data.len() - i,
                {
                    self.data.push(val.data[i].clone());
                    i = i + 1;
                }
                assert(tokens_view(self.data@) =~= tokens_view(d0) + tokens_view(val.data@)) by {
                    assert forall|j: int| d0.len() <= j < self.data@.len() implies
                        #[trigger] tokens_view(self.data@)[j] == tokens_view(val.data@)[j - d0.len()] by {
                        assert(self.data@[d0.len() + (j - d0.len())].text@ == val.data@[j - d0.len()].text@);
                    }
                }
            },
        }
        self
    }

    /// Appends a value in the format `fmt`: its text (a text's tokens joined)
    /// normalized to NFC, one token per character.
    pub fn addf(&mut self, fmt: String, value: Option<AddValue>) -> (r: &mut Self)
        ensures
            tokens_view(r.data@) == tokens_view(old(self).data@) + match value {
                Some(v) => char_tokens(nfc_form(value_text(v)), fmt@),
                None => Seq::empty(),
            },
            r.value@ == old(self).value@,
            r.fmt@ == old(self).fmt@,
            *final(self) == *final(r),
    {
        match value {
            None => {
                assert(tokens_view(self.data@) =~= tokens_view(self.data@) + Seq::<(Seq<char>, Seq<char>)>::empty());
            },
            Some(AddValue::Str(val)) => {
                self.add(Some(AddValue::Token(Token::new(val, fmt))));
            },
            Some(AddValue::Token(token)) => {
                self.add(Some(AddValue::Token(Token::new(token.text, fmt))));
            },
            Some(AddValue::Text(text)) => {
                let s = text.get_str();
                self.add(Some(AddValue::Token(Token::new(s, fmt))));
            },
            Some(AddValue::Tuple(tupl)) => {
                self.add(Some(AddValue::Token(Token::new(tupl.1, fmt))));
            },
        }
        self
    }
}

} // verus!
