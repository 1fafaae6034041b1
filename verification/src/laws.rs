//! Laws of the library: what holds between reading a version and writing
//! it. The widths of the numbers come back, a month name counts in second
//! place only, and the text of a version is read as that version again.

use crate::decimal::{
    all_digits, is_digit, lemma_decimal_text, lemma_padded_text, lemma_padded_text_of_digits,
    padded_text, signed_text, signed_value, unsigned_digits, unsigned_value,
};
use crate::error::ParseSemVerError;
use crate::markers::{SemVerPair, SemVerPrefix, SemVerSuffix};
use crate::month::month_named;
use crate::padded::ZeroPaddedInt;
use crate::semver::{
    arranged, leading_prefix, suffix_marker, suffix_of, version_of, with_month_number, with_patch,
    without_lead, SemVer,
};
use crate::text::{ascii_lower_char, ascii_lowercase, is_numeric, lowercase};
use crate::tokens::{
    alpha_and_number, ascii_without_delimiter, chunks, delimiter_free, is_delimiter,
    lemma_alpha_prefix_len, lemma_chunks_append, lemma_chunks_single, lemma_pieces_push,
    lemma_tokens_of_ascii, lowered, pieces_of, tokens_of,
};
use vstd::prelude::*;
use vstd::utf8::is_ascii_chars;

verus! {

/// A number read from a token is written back with as many characters as
/// the token has: the token itself, with `0` in place of a leading `+`.
pub proof fn lemma_width_kept(s: Seq<char>)
    requires
        ZeroPaddedInt::parsed(s) is Some,
    ensures
        ZeroPaddedInt::parsed(s)->0.width == s.len(),
        ZeroPaddedInt::parsed(s)->0.fills_width(),
        ZeroPaddedInt::parsed(s)->0.text().len() == s.len(),
        ZeroPaddedInt::parsed(s)->0.text() == if s[0] == '+' {
            seq!['0'] + s.skip(1)
        } else {
            s
        },
{
    let number = ZeroPaddedInt::parsed(s)->0;
    let digits = unsigned_digits(s);
    lemma_padded_text_of_digits(digits);
    lemma_decimal_text(number.value as nat);
    if s[0] == '+' {
        assert(number.text() =~= seq!['0'] + padded_text(number.value as nat, digits.len()));
    }
}

/// Only the second token is ever replaced by the number of a month.
pub proof fn lemma_month_only_second(tokens: Seq<Seq<char>>, i: int)
    requires
        0 <= i < tokens.len(),
        i != 1,
    ensures
        with_month_number(tokens).len() == tokens.len(),
        with_month_number(tokens)[i] == tokens[i],
{
}

/// A month name begins with a letter.
pub proof fn lemma_month_name_begins_with_letter(s: Seq<char>)
    requires
        month_named(s) is Some,
    ensures
        s.len() >= 3,
        'a' <= ascii_lower_char(s[0]) <= 'z',
{
    reveal_strlit("jan");
    reveal_strlit("january");
    reveal_strlit("feb");
    reveal_strlit("february");
    reveal_strlit("mar");
    reveal_strlit("march");
    reveal_strlit("apr");
    reveal_strlit("april");
    reveal_strlit("may");
    reveal_strlit("jun");
    reveal_strlit("june");
    reveal_strlit("jul");
    reveal_strlit("july");
    reveal_strlit("aug");
    reveal_strlit("august");
    reveal_strlit("sep");
    reveal_strlit("september");
    reveal_strlit("oct");
    reveal_strlit("october");
    reveal_strlit("nov");
    reveal_strlit("november");
    reveal_strlit("dec");
    reveal_strlit("december");
    let name = ascii_lowercase(s);
    assert(name.len() == s.len());
    assert(name[0] == ascii_lower_char(s[0]));
}

/// A month name is not a number, signed or unsigned.
pub proof fn lemma_month_name_is_no_number(s: Seq<char>)
    requires
        month_named(s) is Some,
    ensures
        unsigned_value(s) is None,
        signed_value(s) is None,
        ZeroPaddedInt::parsed(s) is None,
{
    lemma_month_name_begins_with_letter(s);
    assert(!is_digit(s[0]));
    assert(!is_digit(unsigned_digits(s)[0]));
}

/// A text that begins with a digit is not a month name.
pub proof fn lemma_number_is_no_month(s: Seq<char>)
    requires
        s.len() > 0,
        is_digit(s[0]),
    ensures
        month_named(s) is None,
{
    if month_named(s) is Some {
        lemma_month_name_begins_with_letter(s);
    }
}

/// A month name is no suffix marker, no prefix and not the letter `v`.
pub proof fn lemma_month_name_is_no_marker(s: Seq<char>)
    requires
        month_named(s) is Some,
    ensures
        SemVerSuffix::named(s) is None,
        SemVerPrefix::named(s) is None,
        s != "v"@,
{
    lemma_month_name_begins_with_letter(s);
    reveal_strlit("jan");
    reveal_strlit("january");
    reveal_strlit("feb");
    reveal_strlit("february");
    reveal_strlit("mar");
    reveal_strlit("march");
    reveal_strlit("apr");
    reveal_strlit("april");
    reveal_strlit("may");
    reveal_strlit("jun");
    reveal_strlit("june");
    reveal_strlit("jul");
    reveal_strlit("july");
    reveal_strlit("aug");
    reveal_strlit("august");
    reveal_strlit("sep");
    reveal_strlit("september");
    reveal_strlit("oct");
    reveal_strlit("october");
    reveal_strlit("nov");
    reveal_strlit("november");
    reveal_strlit("dec");
    reveal_strlit("december");
    reveal_strlit("v");
    reveal_strlit("dev");
    reveal_strlit("patch");
    reveal_strlit("p");
    reveal_strlit("alpha");
    reveal_strlit("a");
    reveal_strlit("beta");
    reveal_strlit("b");
    reveal_strlit("rc");
    let word = ascii_lowercase(s);
    assert(word.len() == s.len());
    assert(word[0] == ascii_lower_char(s[0]));
    assert(word[1] == ascii_lower_char(s[1]));
    assert(word[2] == ascii_lower_char(s[2]));
    assert(word != "dev"@) by {
        if word == "dev"@ {
            assert("dev"@[2] == 'v');
        }
    }
    assert(word != "alpha"@) by {
        if word == "alpha"@ {
            assert("alpha"@[1] == 'l');
        }
    }
    assert(word != "patch"@) by {
        if word == "patch"@ {
            assert("patch"@[0] == 'p');
        }
    }
    assert(word != "beta"@) by {
        if word == "beta"@ {
            assert("beta"@[0] == 'b');
        }
    }
}

/// A month name is replaced by its number in second place only. In any
/// other place that is read (first, third, fourth, or fifth after a suffix
/// marker or a `v`) it stays, is neither a number nor a marker, and the
/// tokens are no version.
pub proof fn lemma_month_elsewhere_rejected(tokens: Seq<Seq<char>>)
    requires
        without_lead(tokens).len() >= 2,
        ({
            let rest = without_lead(tokens);
            ||| month_named(rest[0]) is Some
            ||| rest.len() >= 3 && month_named(rest[2]) is Some
            ||| rest.len() >= 4 && month_named(rest[3]) is Some
            ||| rest.len() >= 5 && month_named(rest[4]) is Some && (SemVerSuffix::named(rest[3])
                is Some || rest[3] == "v"@)
        }),
    ensures
        version_of(tokens) is Err,
{
    let rest = without_lead(tokens);
    let full = with_patch(with_month_number(rest));
    let tail = arranged(tokens);
    assert(tail[0] == rest[0]);
    if month_named(rest[0]) is Some {
        lemma_month_name_is_no_number(rest[0]);
    } else if rest.len() >= 3 && month_named(rest[2]) is Some {
        assert(tail[2] == rest[2]);
        lemma_month_name_is_no_number(rest[2]);
    } else if rest.len() >= 4 && month_named(rest[3]) is Some {
        assert(full[3] == rest[3]);
        lemma_month_name_is_no_marker(rest[3]);
        lemma_month_name_is_no_number(rest[3]);
        assert(tail == full);
        assert(tail[3] == rest[3]);
    } else {
        assert(full[3] == rest[3]);
        assert(full[4] == rest[4]);
        assert(tail == full.remove(3));
        assert(tail[3] == rest[4]);
        lemma_month_name_is_no_number(rest[4]);
    }
}

/// The numbers of a parsed version are as wide as the tokens they were
/// read from, and are written with exactly that many characters: leading
/// zeros come back. A token without a sign is written as it was read.
pub proof fn lemma_text_keeps_widths(s: Seq<char>)
    requires
        SemVer::parsed(s) is Ok,
    ensures
        ({
            let version = SemVer::parsed(s)->Ok_0;
            let read = arranged(tokens_of(s));
            &&& version.major.width == read[0].len()
            &&& version.minor.width == read[1].len()
            &&& version.patch.width == read[2].len()
            &&& version.major.text().len() == read[0].len()
            &&& version.minor.text().len() == read[1].len()
            &&& version.patch.text().len() == read[2].len()
            &&& version.major.fills_width()
            &&& version.minor.fills_width()
            &&& version.patch.fills_width()
            &&& read[0][0] != '+' ==> version.major.text() == read[0]
            &&& read[1][0] != '+' ==> version.minor.text() == read[1]
            &&& read[2][0] != '+' ==> version.patch.text() == read[2]
        }),
{
    let read = arranged(tokens_of(s));
    lemma_width_kept(read[0]);
    lemma_width_kept(read[1]);
    lemma_width_kept(read[2]);
}

/// A letter of the ASCII alphabet.
spec fn is_letter(c: char) -> bool {
    ('a' <= c && c <= 'z') || ('A' <= c && c <= 'Z')
}

/// Every character of `s` is a letter.
spec fn all_letters(s: Seq<char>) -> bool {
    forall|i: int| 0 <= i < s.len() ==> is_letter(#[trigger] s[i])
}

/// The canonical spelling of a suffix marker is made of letters and names
/// that marker.
proof fn lemma_suffix_text(suffix: SemVerSuffix)
    ensures
        suffix.text().len() >= 1,
        all_letters(suffix.text()),
        SemVerSuffix::named(suffix.text()) == Some(suffix),
{
    reveal_strlit("dev");
    reveal_strlit("patch");
    reveal_strlit("p");
    reveal_strlit("alpha");
    reveal_strlit("a");
    reveal_strlit("beta");
    reveal_strlit("b");
    reveal_strlit("rc");
    reveal_strlit("RC");
    let text = suffix.text();
    let word = ascii_lowercase(text);
    assert(word.len() == text.len());
    assert(word[0] == ascii_lower_char(text[0]));
    match suffix {
        SemVerSuffix::Dev => {
            assert(word =~= "dev"@);
        },
        SemVerSuffix::Patch => {
            assert(word =~= "patch"@);
        },
        SemVerSuffix::P => {
            assert(word =~= "p"@);
        },
        SemVerSuffix::Alpha => {
            assert(word =~= "alpha"@);
        },
        SemVerSuffix::A => {
            assert(word =~= "a"@);
        },
        SemVerSuffix::Beta => {
            assert(word =~= "beta"@);
        },
        SemVerSuffix::B => {
            assert(word =~= "b"@);
        },
        SemVerSuffix::RC => {
            assert(word =~= "rc"@);
        },
    }
}

/// Lower-casing leaves a run of digits as it is.
proof fn lemma_lowercase_of_digits(s: Seq<char>)
    requires
        all_digits(s),
    ensures
        lowercase(s) == s,
{
    assert(is_ascii_chars(s)) by {
        assert forall|i: int| 0 <= i < s.len() implies '\0' <= #[trigger] s[i] <= '\u{7f}' by {
            assert(is_digit(s[i]));
        }
    }
    assert(ascii_lowercase(s) =~= s);
}

/// Lower-casing a run of letters is ASCII lower-casing, and what a run
/// names does not change by it.
proof fn lemma_lowercase_of_letters(s: Seq<char>)
    requires
        all_letters(s),
    ensures
        lowercase(s) == ascii_lowercase(s),
        ascii_lowercase(lowercase(s)) == ascii_lowercase(s),
{
    assert(is_ascii_chars(s)) by {
        assert forall|i: int| 0 <= i < s.len() implies '\0' <= #[trigger] s[i] <= '\u{7f}' by {
            assert(is_letter(s[i]));
        }
    }
    assert(ascii_lowercase(ascii_lowercase(s)) =~= ascii_lowercase(s));
}

/// The text of the prefix, if there is one.
spec fn lead_text(version: SemVer) -> Seq<char> {
    match version.prefix {
        Some(prefix) => prefix.text(),
        None => Seq::empty(),
    }
}

/// The text of the suffix number, if there is one.
spec fn number_text(pair: SemVerPair) -> Seq<char> {
    match pair.version {
        Some(number) => signed_text(number as int),
        None => Seq::empty(),
    }
}

/// The chunks that the text of a version falls into.
spec fn text_chunks(version: SemVer) -> Seq<Seq<char>> {
    let three = seq![
        lead_text(version) + version.major.text(),
        version.minor.text(),
        version.patch.text(),
    ];
    match version.suffix {
        Some(pair) => three.push(pair.suffix.text() + number_text(pair)),
        None => three,
    }
}

/// Every character of `s` is a letter or a digit.
spec fn all_plain(s: Seq<char>) -> bool {
    forall|i: int| 0 <= i < s.len() ==> is_letter(#[trigger] s[i]) || is_digit(s[i])
}

/// The chunks of the text of a version, where the text is read back.
proof fn lemma_chunks_of_text(version: SemVer)
    requires
        version.reads_back(),
    ensures
        chunks(version.text()) == text_chunks(version),
{
    reveal_strlit("v");
    reveal_strlit(".");
    reveal_strlit("-");
    lemma_padded_text(version.major.value as nat, version.major.width as nat);
    lemma_padded_text(version.minor.value as nat, version.minor.width as nat);
    lemma_padded_text(version.patch.value as nat, version.patch.width as nat);
    let first = lead_text(version) + version.major.text();
    let second = version.minor.text();
    let third = version.patch.text();
    assert(all_plain(first)) by {
        assert forall|i: int| 0 <= i < first.len() implies is_letter(#[trigger] first[i])
            || is_digit(first[i]) by {
            if i >= lead_text(version).len() {
                assert(first[i] == version.major.text()[i - lead_text(version).len()]);
            }
        }
    }
    assert(all_plain(second));
    assert(all_plain(third));
    assert(delimiter_free(first));
    assert(delimiter_free(second));
    assert(delimiter_free(third));
    lemma_chunks_single(first);
    let one = first;
    lemma_chunks_append(one, '.', second);
    let two = one.push('.') + second;
    lemma_chunks_append(two, '.', third);
    let three = two.push('.') + third;
    assert(chunks(three) =~= seq![first, second, third]);
    match version.suffix {
        Some(pair) => {
            lemma_suffix_text(pair.suffix);
            let last = pair.suffix.text() + number_text(pair);
            match pair.version {
                Some(number) => {
                    lemma_decimal_text(number as nat);
                },
                None => {},
            }
            assert(all_plain(last)) by {
                assert forall|i: int| 0 <= i < last.len() implies is_letter(#[trigger] last[i])
                    || is_digit(last[i]) by {
                    if i >= pair.suffix.text().len() {
                        assert(last[i] == number_text(pair)[i - pair.suffix.text().len()]);
                    } else {
                        assert(last[i] == pair.suffix.text()[i]);
                    }
                }
            }
            assert(delimiter_free(last));
            lemma_chunks_append(three, '-', last);
            assert(version.text() =~= three.push('-') + last);
            assert(chunks(version.text()) =~= text_chunks(version));
        },
        None => {
            assert(version.text() =~= three);
            assert(chunks(version.text()) =~= text_chunks(version));
        },
    }
}

/// The tokens that the text of a version is read as.
spec fn text_tokens(version: SemVer) -> Seq<Seq<char>> {
    let lead = match version.prefix {
        Some(prefix) => seq![prefix.text()],
        None => Seq::empty(),
    };
    let numbers = seq![version.major.text(), version.minor.text(), version.patch.text()];
    let tail = match version.suffix {
        Some(pair) => match pair.version {
            Some(number) => seq![
                ascii_lowercase(pair.suffix.text()),
                signed_text(number as int),
            ],
            None => seq![ascii_lowercase(pair.suffix.text())],
        },
        None => Seq::empty(),
    };
    lead + numbers + tail
}

/// A chunk that begins with a digit stays whole.
proof fn lemma_number_chunk(s: Seq<char>)
    requires
        s.len() > 0,
        is_digit(s[0]),
    ensures
        alpha_and_number(s) == seq![s],
{
    lemma_alpha_prefix_len(s, 0);
}

/// A chunk of letters followed by digits is cut between the two; without
/// digits it stays whole.
proof fn lemma_word_chunk(word: Seq<char>, digits: Seq<char>)
    requires
        word.len() > 0,
        all_letters(word),
        all_digits(digits),
    ensures
        alpha_and_number(word + digits) == if digits.len() > 0 {
            seq![word, digits]
        } else {
            seq![word]
        },
{
    let chunk = word + digits;
    assert forall|j: int| 0 <= j < word.len() implies !is_numeric(#[trigger] chunk[j]) by {
        assert(chunk[j] == word[j]);
        assert(is_letter(word[j]));
    }
    if digits.len() > 0 {
        assert(chunk[word.len() as int] == digits[0]);
        assert(is_digit(digits[0]));
        lemma_alpha_prefix_len(chunk, word.len() as int);
        assert(chunk.take(word.len() as int) =~= word);
        assert(chunk.skip(word.len() as int) =~= digits);
    } else {
        assert(chunk =~= word);
        lemma_alpha_prefix_len(chunk, word.len() as int);
    }
}

/// The tokens of the text of a version, where the text is read back.
proof fn lemma_tokens_of_text(version: SemVer)
    requires
        version.reads_back(),
    ensures
        tokens_of(version.text()) == text_tokens(version),
{
    reveal_strlit("v");
    lemma_chunks_of_text(version);
    lemma_padded_text(version.major.value as nat, version.major.width as nat);
    lemma_padded_text(version.minor.value as nat, version.minor.width as nat);
    lemma_padded_text(version.patch.value as nat, version.patch.width as nat);
    let major = version.major.text();
    let minor = version.minor.text();
    let patch = version.patch.text();
    let first = lead_text(version) + major;
    let none = Seq::<Seq<char>>::empty();
    assert(version.text().len() > 0) by {
        assert(text_chunks(version)[0].len() > 0);
        if version.text().len() == 0 {
            assert(chunks(version.text()) =~= seq![Seq::<char>::empty()]);
        }
    }
    let lead_pieces = match version.prefix {
        Some(prefix) => seq![prefix.text(), major],
        None => seq![major],
    };
    assert(alpha_and_number(first) == lead_pieces) by {
        match version.prefix {
            Some(prefix) => {
                assert(all_letters(prefix.text()));
                lemma_word_chunk(prefix.text(), major);
            },
            None => {
                assert(first =~= major);
                lemma_number_chunk(major);
            },
        }
    }
    lemma_number_chunk(minor);
    lemma_number_chunk(patch);
    lemma_pieces_push(none, first);
    lemma_pieces_push(none.push(first), minor);
    lemma_pieces_push(none.push(first).push(minor), patch);
    let three = none.push(first).push(minor).push(patch);
    assert(three =~= seq![first, minor, patch]);
    assert(pieces_of(none) =~= none);
    let three_pieces = lead_pieces + seq![minor] + seq![patch];
    assert(pieces_of(three) =~= three_pieces);
    lemma_lowercase_of_digits(major);
    lemma_lowercase_of_digits(minor);
    lemma_lowercase_of_digits(patch);
    match version.prefix {
        Some(prefix) => {
            assert(all_letters(prefix.text()));
            lemma_lowercase_of_letters(prefix.text());
            assert(ascii_lowercase(prefix.text()) =~= prefix.text());
        },
        None => {},
    }
    match version.suffix {
        Some(pair) => {
            lemma_suffix_text(pair.suffix);
            let word = pair.suffix.text();
            let digits = number_text(pair);
            match pair.version {
                Some(number) => {
                    lemma_decimal_text(number as nat);
                },
                None => {},
            }
            lemma_word_chunk(word, digits);
            lemma_pieces_push(three, word + digits);
            lemma_lowercase_of_letters(word);
            lemma_lowercase_of_digits(digits);
            assert(text_chunks(version) =~= three.push(word + digits));
            let pieces = three_pieces + alpha_and_number(word + digits);
            assert(pieces_of(text_chunks(version)) == pieces);
            assert(lowered(pieces) =~= text_tokens(version));
        },
        None => {
            assert(text_chunks(version) =~= three);
            assert(lowered(three_pieces) =~= text_tokens(version));
        },
    }
}

/// The text of a number that fills its width is read as that number.
proof fn lemma_number_read_back(number: ZeroPaddedInt)
    requires
        number.fills_width(),
    ensures
        number.text().len() > 0,
        is_digit(number.text()[0]),
        ZeroPaddedInt::parsed(number.text()) == Some(number),
        SemVerPrefix::named(number.text()) is None,
        number.text() != "release"@,
{
    reveal_strlit("v");
    reveal_strlit("release");
    lemma_padded_text(number.value as nat, number.width as nat);
    let text = number.text();
    assert(is_digit(text[0]));
    assert(unsigned_digits(text) == text);
    assert(ascii_lowercase(text)[0] == ascii_lower_char(text[0]));
}

/// The tokens of the text of a version denote that version.
proof fn lemma_version_of_text_tokens(version: SemVer)
    requires
        version.reads_back(),
    ensures
        version_of(text_tokens(version)) == Ok::<SemVer, ParseSemVerError>(version),
{
    reveal_strlit("v");
    lemma_number_read_back(version.major);
    lemma_number_read_back(version.minor);
    lemma_number_read_back(version.patch);
    let tokens = text_tokens(version);
    let major = version.major.text();
    let minor = version.minor.text();
    let patch = version.patch.text();
    let rest = without_lead(tokens);
    match version.prefix {
        Some(prefix) => {
            assert(tokens[0] == prefix.text());
            assert(ascii_lowercase(prefix.text()) =~= "v"@);
            assert(leading_prefix(tokens) == Some(prefix));
        },
        None => {
            assert(tokens[0] == major);
        },
    }
    assert(leading_prefix(tokens) == version.prefix);
    assert(rest.len() >= 3);
    assert(rest[0] == major);
    assert(rest[1] == minor);
    assert(rest[2] == patch);
    lemma_number_is_no_month(minor);
    let full = with_patch(with_month_number(rest));
    assert(full == rest);
    let tail = arranged(tokens);
    match version.suffix {
        Some(pair) => {
            lemma_suffix_text(pair.suffix);
            lemma_lowercase_of_letters(pair.suffix.text());
            let word = ascii_lowercase(pair.suffix.text());
            assert(rest[3] == word);
            assert(ascii_lowercase(word) =~= word);
            assert(SemVerSuffix::named(word) == Some(pair.suffix));
            assert(suffix_marker(full) == Some(pair.suffix));
            assert(tail == full.remove(3));
            assert(tail[0] == major);
            assert(tail[1] == minor);
            assert(tail[2] == patch);
            match pair.version {
                Some(number) => {
                    lemma_decimal_text(number as nat);
                    let digits = signed_text(number as int);
                    assert(is_digit(digits[0]));
                    assert(digits.skip(0) =~= digits);
                    assert(tail.len() == 4);
                    assert(tail[3] == digits);
                    assert(signed_value(digits) == Some(number));
                },
                None => {
                    assert(tail.len() == 3);
                },
            }
            assert(suffix_of(suffix_marker(full), tail) == Ok::<
                Option<SemVerPair>,
                ParseSemVerError,
            >(version.suffix));
        },
        None => {
            assert(rest.len() == 3);
            assert(tail == full);
        },
    }
}

/// Writing then reading gives the version back: the text of a version whose
/// numbers fill their widths, and whose suffix number is not negative, is
/// read as that version.
pub proof fn lemma_parse_of_text(version: SemVer)
    requires
        version.reads_back(),
    ensures
        SemVer::parsed(version.text()) == Ok::<SemVer, ParseSemVerError>(version),
{
    lemma_tokens_of_text(version);
    lemma_version_of_text_tokens(version);
}

/// Reading, writing and reading again gives what the first reading gave,
/// for every text that is read as a version without a negative suffix
/// number.
pub proof fn lemma_reparse(s: Seq<char>)
    requires
        SemVer::parsed(s) is Ok,
        SemVer::parsed(s)->Ok_0.suffix matches Some(pair) ==> (pair.version matches Some(number)
            ==> number >= 0),
    ensures
        SemVer::parsed(SemVer::parsed(s)->Ok_0.text()) == SemVer::parsed(s),
{
    lemma_text_keeps_widths(s);
    lemma_parse_of_text(SemVer::parsed(s)->Ok_0);
}

/// A version read from an ASCII text has no negative suffix number: the
/// dash is a delimiter, so no token holds one.
pub proof fn lemma_suffix_number_of_ascii(s: Seq<char>)
    requires
        is_ascii_chars(s),
        SemVer::parsed(s) is Ok,
    ensures
        SemVer::parsed(s)->Ok_0.suffix matches Some(pair) ==> (pair.version matches Some(number)
            ==> number >= 0),
{
    lemma_tokens_of_ascii(s);
    let tokens = tokens_of(s);
    let rest = without_lead(tokens);
    let full = with_patch(with_month_number(rest));
    let tail = arranged(tokens);
    if tail.len() >= 4 {
        let first = tokens.len() - rest.len();
        assert(full.len() == rest.len());
        let k = if tail.len() == full.len() {
            first + 3
        } else {
            first + 4
        };
        assert(tail[3] == tokens[k]);
        assert(ascii_without_delimiter(tokens[k]));
        if tail[3].len() > 0 {
            assert(!is_delimiter(tail[3][0]));
        }
    }
}

/// Reading, writing and reading again gives what the first reading gave,
/// for every ASCII text that is read as a version.
pub proof fn lemma_reparse_ascii(s: Seq<char>)
    requires
        is_ascii_chars(s),
        SemVer::parsed(s) is Ok,
    ensures
        SemVer::parsed(SemVer::parsed(s)->Ok_0.text()) == SemVer::parsed(s),
{
    lemma_suffix_number_of_ascii(s);
    lemma_reparse(s);
}

} // verus!
