use vstd::prelude::*;
use vstd::string::StrSliceExecFns;
use vstd::std_specs::hash::group_hash_axioms;
use std::collections::HashMap;
use super::constants::{CODE_CHARS, INITIAL_BOARD};
use super::game::{cells, piece_at, valid_cells, with_piece, IBoard, OthelloError};

verus! {

broadcast use group_hash_axioms;

/// `String::push` of std, which appends one character to a string. The
/// contract says that the text afterwards is the text before with `ch` added
/// at its end, as the documentation of std has it.
pub assume_specification[ String::push ](s: &mut String, ch: char)
    ensures
        final(s)@ == old(s)@.push(ch),
;

/// The 66 digits that are packed: the 64 cells and two closing digits 2.
pub open spec fn padded(b: Seq<u8>) -> Seq<u8> {
    b + seq![2u8, 2u8]
}

/// The value of the `g`-th group of three digits, read in base 3.
pub open spec fn group_code(b: Seq<u8>, g: int) -> int {
    padded(b)[3 * g] * 9 + padded(b)[3 * g + 1] * 3 + padded(b)[3 * g + 2]
}

/// The text of a board: for each of the 22 groups the character of the
/// alphabet at the group's value.
pub open spec fn encoded(b: Seq<u8>, alphabet: Seq<char>) -> Seq<char> {
    Seq::new(22, |g: int| alphabet[group_code(b, g)])
}

/// The `j`-th of the three base-3 digits of a code, the most significant
/// first.
pub open spec fn digit_of(code: int, j: int) -> u8 {
    if j == 0 {
        ((code / 9) % 3) as u8
    } else if j == 1 {
        ((code / 3) % 3) as u8
    } else {
        (code % 3) as u8
    }
}

/// Every character of the text has a code.
pub open spec fn decodable(s: Seq<char>, codes: Map<u32, u8>) -> bool {
    forall|i: int| 0 <= i < s.len() ==> codes.contains_key(#[trigger] s[i] as u32)
}

/// The cell with index `k` of the board that a text stands for: the digit
/// that the text gives for it, and where the text is too short to give one,
/// the cell of the starting board.
pub open spec fn decoded_cell(s: Seq<char>, codes: Map<u32, u8>, k: int) -> u8 {
    if k < 3 * s.len() {
        digit_of(codes[s[k / 3] as u32] as int, k % 3)
    } else {
        cells(INITIAL_BOARD)[k]
    }
}

/// The board that a text stands for.
pub open spec fn decoded(s: Seq<char>, codes: Map<u32, u8>) -> Seq<u8> {
    Seq::new(64, |k: int| decoded_cell(s, codes, k))
}

/// The codes of the first `n` characters of an alphabet: each character is
/// mapped, under its scalar value, to its index in eight bits; of a character
/// that occurs twice the later index counts.
pub open spec fn code_map_upto(alphabet: Seq<char>, n: nat) -> Map<u32, u8>
    decreases n,
{
    if n == 0 {
        Map::empty()
    } else {
        code_map_upto(alphabet, (n - 1) as nat).insert(
            alphabet[n - 1] as u32,
            ((n - 1) % 256) as u8,
        )
    }
}

/// The codes of an alphabet.
pub open spec fn code_map(alphabet: Seq<char>) -> Map<u32, u8> {
    code_map_upto(alphabet, alphabet.len())
}

/// One digit of the padded board.
fn padded_digit(board: &IBoard, k: usize) -> (d: u8)
    requires
        k < 66,
    ensures
        d == padded(cells(*board))[k as int],
{
    if k < 64 {
        piece_at(board, k / 8, k % 8)
    } else {
        2
    }
}

/// Writes a board as a text of 22 characters over the alphabet
/// `code_chars`. Every cell has to hold a piece value, and the alphabet has
/// to reach to each group's value.
pub fn string_from_board(board: IBoard, code_chars: &str) -> (text: String)
    requires
        valid_cells(cells(board)),
        forall|g: int| 0 <= g < 22 ==> #[trigger] group_code(cells(board), g) < code_chars@.len(),
    ensures
        text@ == encoded(cells(board), code_chars@),
{
    let mut text = String::new();
    let mut g: usize = 0;
    while g < 22
        invariant
            g <= 22,
            valid_cells(cells(board)),
            forall|g: int|
                0 <= g < 22 ==> #[trigger] group_code(cells(board), g) < code_chars@.len(),
            text@ == encoded(cells(board), code_chars@).take(g as int),
        decreases 22 - g,
    {
        let high = padded_digit(&board, 3 * g);
        let middle = padded_digit(&board, 3 * g + 1);
        let low = padded_digit(&board, 3 * g + 2);
        proof {
            let b = cells(board);
            assert(forall|k: int| 0 <= k < 66 ==> #[trigger] padded(b)[k] <= 2);
            assert(group_code(b, g as int) == high * 9 + middle * 3 + low);
        }
        let index: usize = (high as usize) * 9 + (middle as usize) * 3 + (low as usize);
        let c = code_chars.get_char(index);
        text.push(c);
        proof {
            let all = encoded(cells(board), code_chars@);
            assert(all.take(g + 1) =~= all.take(g as int).push(c));
        }
        g = g + 1;
    }
    assert(encoded(cells(board), code_chars@).take(22) =~= encoded(cells(board), code_chars@));
    text
}

/// Reads a board from a text, three cells from each character and 64 cells
/// at most; cells that the text does not reach are those of the starting
/// board. A character without a code, anywhere in the text, is an error.
pub fn board_from_string(s: &str, code_char_hash: &HashMap<u32, u8>) -> (board: Result<
    IBoard,
    OthelloError,
>)
    ensures
        board is Ok <==> decodable(s@, code_char_hash@),
        board is Err ==> board == Err::<IBoard, OthelloError>(OthelloError::DecodeError),
        board is Ok ==> cells(board->Ok_0) == decoded(s@, code_char_hash@),
{
    let mut board_formatted: IBoard = INITIAL_BOARD;
    let n = s.unicode_len();
    let mut i: usize = 0;
    assert(cells(board_formatted) =~= Seq::new(
        64,
        |k: int| decoded_cell(s@.take(0), code_char_hash@, k),
    ));
    while i < n
        invariant
            i <= n,
            n == s@.len(),
            decodable(s@.take(i as int), code_char_hash@),
            cells(board_formatted) == Seq::new(
                64,
                |k: int| decoded_cell(s@.take(i as int), code_char_hash@, k),
            ),
        decreases n - i,
    {
        let c = s.get_char(i);
        let code: u8 = match code_char_hash.get(&(c as u32)) {
            Some(v) => *v,
            None => {
                return Err(OthelloError::DecodeError);
            },
        };
        let ghost before = cells(board_formatted);
        if i < 22 {
            let digits: [u8; 3] = [(code / 9) % 3, (code / 3) % 3, code % 3];
            let mut j: usize = 0;
            while j < 3
                invariant
                    j <= 3,
                    i < 22,
                    digits[0] == digit_of(code as int, 0),
                    digits[1] == digit_of(code as int, 1),
                    digits[2] == digit_of(code as int, 2),
                    cells(board_formatted).len() == 64,
                    forall|k: int|
                        0 <= k < 64 ==> #[trigger] cells(board_formatted)[k] == if 3 * i <= k < 3
                            * i + j {
                            digit_of(code as int, k - 3 * i)
                        } else {
                            before[k]
                        },
                decreases 3 - j,
            {
                let k: usize = 3 * i + j;
                if k < 64 {
                    board_formatted = with_piece(board_formatted, k / 8, k % 8, digits[j]);
                }
                j = j + 1;
            }
        }
        proof {
            let old_text = s@.take(i as int);
            let new_text = s@.take(i + 1);
            assert(new_text =~= old_text.push(c));
            assert forall|m: int| 0 <= m < new_text.len() implies code_char_hash@.contains_key(
                #[trigger] new_text[m] as u32,
            ) by {
                if m < i {
                    assert(old_text[m] == new_text[m]);
                }
            }
            assert forall|k: int| 0 <= k < 64 implies cells(board_formatted)[k] == decoded_cell(
                new_text,
                code_char_hash@,
                k,
            ) by {
                assert(before[k] == decoded_cell(old_text, code_char_hash@, k));
                if k < 3 * i {
                    assert(old_text[k / 3] == new_text[k / 3]);
                }
            }
            assert(cells(board_formatted) =~= Seq::new(
                64,
                |k: int| decoded_cell(new_text, code_char_hash@, k),
            ));
        }
        i = i + 1;
    }
    assert(s@.take(n as int) =~= s@);
    assert(cells(board_formatted) =~= decoded(s@, code_char_hash@));
    Ok(board_formatted)
}

/// The table that gives each character of an alphabet its code.
pub fn create_code_char_hash(code_chars: &str) -> (code_char_hash: HashMap<u32, u8>)
    ensures
        code_char_hash@ == code_map(code_chars@),
{
    let mut code_char_hash: HashMap<u32, u8> = HashMap::new();
    let n = code_chars.unicode_len();
    let mut i: usize = 0;
    while i < n
        invariant
            i <= n,
            n == code_chars@.len(),
            code_char_hash@ == code_map_upto(code_chars@, i as nat),
        decreases n - i,
    {
        let c = code_chars.get_char(i);
        code_char_hash.insert(c as u32, (i % 256) as u8);
        i = i + 1;
    }
    code_char_hash
}

/// The three digits of a code below 27 are its digits in base 3. They are
/// also the last three digits in base 3 of the code plus 27, which is 1000 in
/// base 3.
pub proof fn lemma_digits_of_code(code: int)
    requires
        0 <= code < 27,
    ensures
        digit_of(code, 0) <= 2,
        digit_of(code, 1) <= 2,
        digit_of(code, 2) <= 2,
        code == 9 * digit_of(code, 0) + 3 * digit_of(code, 1) + digit_of(code, 2),
        digit_of(code + 27, 0) == digit_of(code, 0),
        digit_of(code + 27, 1) == digit_of(code, 1),
        digit_of(code + 27, 2) == digit_of(code, 2),
{
}

/// An alphabet of the codec: 27 characters, no two alike.
pub open spec fn is_alphabet(alphabet: Seq<char>) -> bool {
    alphabet.len() == 27 && alphabet.no_duplicates()
}

/// Two characters with the same scalar value are the same character.
pub proof fn lemma_scalar_value_is_injective(c1: char, c2: char)
    requires
        c1 as u32 == c2 as u32,
    ensures
        c1 == c2,
{
}

/// In an alphabet without repeated characters, of 256 characters at most,
/// the code of each character is its index.
pub proof fn lemma_code_is_index(alphabet: Seq<char>, n: nat, i: int)
    requires
        n <= alphabet.len() <= 256,
        alphabet.no_duplicates(),
        0 <= i < n,
    ensures
        code_map_upto(alphabet, n).contains_key(alphabet[i] as u32),
        code_map_upto(alphabet, n)[alphabet[i] as u32] == i,
    decreases n,
{
    if i < n - 1 {
        lemma_code_is_index(alphabet, (n - 1) as nat, i);
        if alphabet[i] as u32 == alphabet[n - 1] as u32 {
            lemma_scalar_value_is_injective(alphabet[i], alphabet[n - 1]);
        }
    }
}

/// The text of a board, read back, gives the board again: for every board
/// of piece values and every alphabet.
pub proof fn lemma_decode_encode(b: Seq<u8>, alphabet: Seq<char>)
    requires
        valid_cells(b),
        is_alphabet(alphabet),
    ensures
        encoded(b, alphabet).len() == 22,
        decodable(encoded(b, alphabet), code_map(alphabet)),
        decoded(encoded(b, alphabet), code_map(alphabet)) == b,
{
    let text = encoded(b, alphabet);
    let codes = code_map(alphabet);
    assert(forall|k: int| 0 <= k < 66 ==> #[trigger] padded(b)[k] <= 2);
    assert forall|g: int| 0 <= g < 22 implies codes.contains_key(#[trigger] text[g] as u32)
        && codes[text[g] as u32] == group_code(b, g) by {
        assert(padded(b)[3 * g] <= 2 && padded(b)[3 * g + 1] <= 2 && padded(b)[3 * g + 2] <= 2);
        lemma_code_is_index(alphabet, 27, group_code(b, g));
    }
    assert forall|k: int| 0 <= k < 64 implies decoded_cell(text, codes, k) == b[k] by {
        let g = k / 3;
        assert(codes[text[g] as u32] == group_code(b, g));
        assert(padded(b)[3 * g] <= 2 && padded(b)[3 * g + 1] <= 2 && padded(b)[3 * g + 2] <= 2);
        assert(padded(b)[k] == b[k]);
    }
    assert(decoded(text, codes) =~= b);
}

/// Two boards of piece values with the same text are the same board.
pub proof fn lemma_encoding_is_injective(b1: Seq<u8>, b2: Seq<u8>, alphabet: Seq<char>)
    requires
        valid_cells(b1),
        valid_cells(b2),
        is_alphabet(alphabet),
        encoded(b1, alphabet) == encoded(b2, alphabet),
    ensures
        b1 == b2,
{
    lemma_decode_encode(b1, alphabet);
    lemma_decode_encode(b2, alphabet);
}

/// A text of 22 characters of the alphabet stands for a board of piece
/// values; and where its last character closes with the two digits 2, as
/// every text of a board does, the text of that board is the text again.
pub proof fn lemma_encode_decode(s: Seq<char>, alphabet: Seq<char>)
    requires
        is_alphabet(alphabet),
        s.len() == 22,
        forall|i: int| 0 <= i < 22 ==> alphabet.contains(#[trigger] s[i]),
    ensures
        decodable(s, code_map(alphabet)),
        valid_cells(decoded(s, code_map(alphabet))),
        code_map(alphabet)[s[21] as u32] % 9 == 8 ==> encoded(
            decoded(s, code_map(alphabet)),
            alphabet,
        ) == s,
{
    let codes = code_map(alphabet);
    let b = decoded(s, codes);
    assert forall|g: int| 0 <= g < 22 implies codes.contains_key(#[trigger] s[g] as u32)
        && codes[s[g] as u32] < 27 && alphabet[codes[s[g] as u32] as int] == s[g] by {
        let i = choose|i: int| 0 <= i < alphabet.len() && alphabet[i] == s[g];
        lemma_code_is_index(alphabet, 27, i);
    }
    assert forall|k: int| 0 <= k < 64 implies #[trigger] b[k] <= 2 by {
        assert(codes.contains_key(s[k / 3] as u32));
    }
    if codes[s[21] as u32] % 9 == 8 {
        assert forall|g: int| 0 <= g < 22 implies encoded(b, alphabet)[g] == s[g] by {
            let code = codes[s[g] as u32] as int;
            assert(codes.contains_key(s[g] as u32) && code < 27 && alphabet[code] == s[g]);
            lemma_digits_of_code(code);
            assert(b[3 * g] == digit_of(code, 0));
            if g < 21 {
                assert(b[3 * g + 1] == digit_of(code, 1));
                assert(b[3 * g + 2] == digit_of(code, 2));
                assert(padded(b)[3 * g] == b[3 * g]);
                assert(padded(b)[3 * g + 1] == b[3 * g + 1]);
                assert(padded(b)[3 * g + 2] == b[3 * g + 2]);
            } else {
                assert(padded(b)[63] == b[63]);
                assert(padded(b)[64] == 2 && padded(b)[65] == 2);
            }
            assert(group_code(b, g) == code);
        }
        assert(encoded(b, alphabet) =~= s);
    }
}

/// The codec's own alphabet is one: it has 27 characters, no two alike.
pub proof fn lemma_code_chars_is_alphabet()
    ensures
        is_alphabet(CODE_CHARS@),
{
    reveal_strlit("234567bcdfghjkmnpqrstvwxyz-");
    let a = CODE_CHARS@;
    assert(a.len() == 27);
    assert forall|i: int, j: int| 0 <= i < a.len() && 0 <= j < a.len() && i != j implies a[i]
        != a[j] by {
        assert(a[0] == '2' && a[1] == '3' && a[2] == '4' && a[3] == '5' && a[4] == '6' && a[5]
            == '7' && a[6] == 'b' && a[7] == 'c' && a[8] == 'd' && a[9] == 'f' && a[10] == 'g'
            && a[11] == 'h' && a[12] == 'j' && a[13] == 'k' && a[14] == 'm' && a[15] == 'n'
            && a[16] == 'p' && a[17] == 'q' && a[18] == 'r' && a[19] == 's' && a[20] == 't'
            && a[21] == 'v' && a[22] == 'w' && a[23] == 'x' && a[24] == 'y' && a[25] == 'z'
            && a[26] == '-');
    }
}

} // verus!
