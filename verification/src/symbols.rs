//! Symbol tables: which number a symbol has, and which symbols to subscribe to.

use crate::text;
use vstd::hash_map::StringHashMap;
use vstd::prelude::*;
use vstd::string::*;
use vstd::utf8::*;

verus! {

/// Numbers by symbol.
pub type SymbolMap = StringHashMap<u64>;

/// A line that was read, or the text of the error that reading it gave.
pub open spec fn line_view(line: Result<String, String>) -> Result<Seq<char>, Seq<char>> {
    match line {
        Ok(s) => Ok(s@),
        Err(e) => Err(e@),
    }
}

/// Lines as sequences of characters.
pub open spec fn lines_view(lines: Seq<Result<String, String>>) -> Seq<
    Result<Seq<char>, Seq<char>>,
> {
    lines.map_values(|line: Result<String, String>| line_view(line))
}

/// What a line of the table gives.
pub ghost enum Row {
    Blank,
    Entry(Seq<char>, u64),
    Fault(Seq<char>),
}

/// What the line with number `num` gives: nothing where it is blank; else a
/// number, a tab and a symbol, with white space around each left out and the
/// symbol in upper case.
pub open spec fn row(line: Result<Seq<char>, Seq<char>>, num: nat) -> Row {
    match line {
        Err(e) => Row::Fault("Error reading line "@ + text::dec(num) + ": "@ + e),
        Ok(s) => {
            let parts = text::split_on(text::trimmed(s), '\t');
            let id = text::trimmed(parts[0]);
            if text::trimmed(s).len() == 0 {
                Row::Blank
            } else if parts.len() != 2 {
                Row::Fault(
                    "Invalid format at line "@ + text::dec(num) + ": expected 2 columns, got "@
                        + text::dec(parts.len()),
                )
            } else if text::integer(id, false) matches Some(v) && v <= u64::MAX {
                Row::Entry(
                    text::upper(text::trimmed(parts[1])),
                    text::integer(id, false).unwrap() as u64,
                )
            } else {
                Row::Fault(
                    "Invalid symbol_id at line "@ + text::dec(num) + ": "@ + text::u64_fault(id),
                )
            }
        },
    }
}

/// The table that lines give, numbered from one: of two lines for one symbol
/// the later counts. Instead, the first fault, where there is one.
pub open spec fn table(lines: Seq<Result<Seq<char>, Seq<char>>>) -> Result<
    Map<Seq<char>, u64>,
    Seq<char>,
>
    decreases lines.len(),
{
    if lines.len() == 0 {
        Ok(Map::empty())
    } else {
        match table(lines.drop_last()) {
            Err(e) => Err(e),
            Ok(m) => match row(lines.last(), lines.len()) {
                Row::Blank => Ok(m),
                Row::Entry(symbol, id) => Ok(m.insert(symbol, id)),
                Row::Fault(e) => Err(e),
            },
        }
    }
}

/// A fault among the first lines is the fault of all of them.
proof fn lemma_fault_stays(lines: Seq<Result<Seq<char>, Seq<char>>>, n: int)
    requires
        0 <= n <= lines.len(),
        table(lines.take(n)) is Err,
    ensures
        table(lines) == table(lines.take(n)),
    decreases lines.len(),
{
    if n < lines.len() {
        assert(lines.drop_last().take(n) =~= lines.take(n));
        lemma_fault_stays(lines.drop_last(), n);
    } else {
        assert(lines.take(n) =~= lines);
    }
}

/// The number of a symbol, which may be written in any case.
pub open spec fn lookup(m: Map<Seq<char>, u64>, symbol: Seq<char>) -> Option<u64> {
    if m.contains_key(text::upper(symbol)) {
        Some(m[text::upper(symbol)])
    } else {
        None
    }
}

/// Outcome of a row in executable code.
enum Parsed {
    Blank,
    Entry(String, u64),
    Fault(String),
}

impl Parsed {
    spec fn is_row(self, row: Row) -> bool {
        match self {
            Parsed::Blank => row is Blank,
            Parsed::Entry(symbol, id) => row == Row::Entry(symbol@, id),
            Parsed::Fault(e) => row == Row::Fault(e@),
        }
    }
}

/// A text about a line, up to the line's number.
fn about_line(what: &str, num: usize) -> (r: String)
    ensures
        r@ == what@ + text::dec(num as nat),
{
    let mut r: String = String::from_str(what);
    text::push_dec(&mut r, num as u128);
    r
}

/// Reads one line of the table.
fn parse_row(line: &Result<String, String>, num: usize) -> (r: Parsed)
    ensures
        r.is_row(row(line_view(*line), num as nat)),
{
    let s: &String = match line {
        Ok(s) => s,
        Err(e) => {
            let mut fault: String = about_line("Error reading line ", num);
            fault.append(": ");
            fault.append(e.as_str());
            return Parsed::Fault(fault);
        },
    };
    let trimmed: &str = text::trim(s.as_str());
    if trimmed.is_empty() {
        return Parsed::Blank;
    }
    let parts: Vec<String> = text::split(trimmed, '\t');
    let ghost columns = parts.deep_view();
    assert(columns == text::split_on(text::trimmed(s@), '\t'));
    if parts.len() != 2 {
        let mut fault: String = about_line("Invalid format at line ", num);
        fault.append(": expected 2 columns, got ");
        text::push_dec(&mut fault, parts.len() as u128);
        return Parsed::Fault(fault);
    }
    assert(columns[0] == parts[0]@ && columns[1] == parts[1]@);
    match text::parse_u64(text::trim(parts[0].as_str())) {
        Ok(id) => Parsed::Entry(text::trim(parts[1].as_str()).to_uppercase(), id),
        Err(e) => {
            let mut fault: String = about_line("Invalid symbol_id at line ", num);
            fault.append(": ");
            fault.append(e.as_str());
            Parsed::Fault(fault)
        },
    }
}

/// The numbers of all known symbols.
pub struct SymbolMapper {
    symbol_to_id: SymbolMap,
}

impl View for SymbolMapper {
    type V = Map<Seq<char>, u64>;

    closed spec fn view(&self) -> Map<Seq<char>, u64> {
        self.symbol_to_id@
    }
}

impl SymbolMapper {
    /// The table that the lines of a file give, or the text of the first fault
    /// in them.
    pub fn load_from_tsv(lines: &[Result<String, String>]) -> (r: Result<Self, String>)
        ensures
            match r {
                Ok(m) => table(lines_view(lines@)) == Ok::<Map<Seq<char>, u64>, Seq<char>>(m@),
                Err(e) => table(lines_view(lines@)) == Err::<Map<Seq<char>, u64>, Seq<char>>(e@),
            },
    {
        let mut symbol_to_id: SymbolMap = StringHashMap::new();
        let ghost all = lines_view(lines@);
        let mut i: usize = 0;
        assert(all.take(0) =~= Seq::empty());
        while i < lines.len()
            invariant
                i <= lines@.len(),
                all == lines_view(lines@),
                table(all.take(i as int)) == Ok::<Map<Seq<char>, u64>, Seq<char>>(symbol_to_id@),
            decreases lines@.len() - i,
        {
            assert(all.take(i + 1).drop_last() =~= all.take(i as int));
            match parse_row(&lines[i], i + 1) {
                Parsed::Blank => {},
                Parsed::Entry(symbol, id) => {
                    symbol_to_id.insert(symbol, id);
                },
                Parsed::Fault(e) => {
                    proof {
                        lemma_fault_stays(all, i + 1);
                    }
                    return Err(e);
                },
            }
            i = i + 1;
        }
        assert(all.take(i as int) =~= all);
        Ok(SymbolMapper { symbol_to_id })
    }

    /// The number of a symbol.
    pub fn get_id(&self, symbol: &str) -> (r: Option<u64>)
        ensures
            r == lookup(self@, symbol@),
    {
        let key: String = symbol.to_uppercase();
        match self.symbol_to_id.get(key.as_str()) {
            Some(id) => Some(*id),
            None => None,
        }
    }

    /// How many symbols there are.
    pub fn len(&self) -> (r: usize)
        ensures
            r == self@.len(),
    {
        self.symbol_to_id.len()
    }
}

/// The symbols that lines name: each line that is not blank, without the white
/// space around it, in upper case. Instead, the fault of the first line that
/// could not be read.
pub open spec fn listed(lines: Seq<Result<Seq<char>, Seq<char>>>) -> Result<
    Seq<Seq<char>>,
    Seq<char>,
>
    decreases lines.len(),
{
    if lines.len() == 0 {
        Ok(Seq::empty())
    } else {
        match listed(lines.drop_last()) {
            Err(e) => Err(e),
            Ok(symbols) => match lines.last() {
                Err(e) => Err("Error reading subscribe file: "@ + e),
                Ok(s) => {
                    if text::trimmed(s).len() == 0 {
                        Ok(symbols)
                    } else {
                        Ok(symbols.push(text::upper(text::trimmed(s))))
                    }
                },
            },
        }
    }
}

proof fn lemma_list_fault_stays(lines: Seq<Result<Seq<char>, Seq<char>>>, n: int)
    requires
        0 <= n <= lines.len(),
        listed(lines.take(n)) is Err,
    ensures
        listed(lines) == listed(lines.take(n)),
    decreases lines.len(),
{
    if n < lines.len() {
        assert(lines.drop_last().take(n) =~= lines.take(n));
        lemma_list_fault_stays(lines.drop_last(), n);
    } else {
        assert(lines.take(n) =~= lines);
    }
}

/// The symbols that the lines of a file name.
pub fn load_subscribe_list(lines: &[Result<String, String>]) -> (r: Result<Vec<String>, String>)
    ensures
        match r {
            Ok(symbols) => listed(lines_view(lines@)) == Ok::<Seq<Seq<char>>, Seq<char>>(
                symbols.deep_view(),
            ),
            Err(e) => listed(lines_view(lines@)) == Err::<Seq<Seq<char>>, Seq<char>>(e@),
        },
{
    let mut symbols: Vec<String> = Vec::new();
    let ghost all = lines_view(lines@);
    let mut i: usize = 0;
    assert(all.take(0) =~= Seq::empty());
    assert(symbols.deep_view() =~= Seq::<Seq<char>>::empty());
    while i < lines.len()
        invariant
            i <= lines@.len(),
            all == lines_view(lines@),
            listed(all.take(i as int)) == Ok::<Seq<Seq<char>>, Seq<char>>(symbols.deep_view()),
        decreases lines@.len() - i,
    {
        assert(all.take(i + 1).drop_last() =~= all.take(i as int));
        match &lines[i] {
            Err(e) => {
                let mut fault: String = String::from_str("Error reading subscribe file: ");
                fault.append(e.as_str());
                proof {
                    lemma_list_fault_stays(all, i + 1);
                }
                return Err(fault);
            },
            Ok(s) => {
                let symbol: &str = text::trim(s.as_str());
                if !symbol.is_empty() {
                    let ghost before = symbols.deep_view();
                    symbols.push(symbol.to_uppercase());
                    assert(symbols.deep_view() =~= before.push(text::upper(symbol@)));
                }
            },
        }
        i = i + 1;
    }
    assert(all.take(i as int) =~= all);
    Ok(symbols)
}

/// The numbers of all listed symbols, each under its name as it is listed.
pub open spec fn chosen(symbols: Seq<Seq<char>>, known: Map<Seq<char>, u64>) -> Map<
    Seq<char>,
    u64,
> {
    Map::new(|s: Seq<char>| symbols.contains(s), |s: Seq<char>| known[text::upper(s)])
}

/// The numbers of all listed symbols, or a complaint about the first one that
/// has none.
pub fn validate_symbols(subscribe_symbols: &[String], mapper: &SymbolMapper) -> (r: Result<
    SymbolMap,
    String,
>)
    ensures
        ({
            let symbols = subscribe_symbols.deep_view();
            match r {
                Ok(ids) => {
                    &&& forall|i: int|
                        0 <= i < symbols.len() ==> lookup(mapper@, #[trigger] symbols[i]) is Some
                    &&& ids@ == chosen(symbols, mapper@)
                },
                Err(e) => exists|i: int|
                    {
                        &&& 0 <= i < symbols.len()
                        &&& lookup(mapper@, #[trigger] symbols[i]) is None
                        &&& forall|j: int|
                            0 <= j < i ==> lookup(mapper@, #[trigger] symbols[j]) is Some
                        &&& e@ == "Symbol "@ + symbols[i] + " not found in symbols.tsv"@
                    },
            }
        }),
{
    let mut result: SymbolMap = StringHashMap::new();
    let ghost symbols = subscribe_symbols.deep_view();
    let mut i: usize = 0;
    assert(result@ =~= chosen(symbols.take(0), mapper@));
    while i < subscribe_symbols.len()
        invariant
            i <= subscribe_symbols@.len(),
            symbols == subscribe_symbols.deep_view(),
            forall|j: int| 0 <= j < i ==> lookup(mapper@, #[trigger] symbols[j]) is Some,
            result@ == chosen(symbols.take(i as int), mapper@),
        decreases subscribe_symbols@.len() - i,
    {
        let symbol: &String = &subscribe_symbols[i];
        assert(symbol@ == symbols[i as int]);
        match mapper.get_id(symbol.as_str()) {
            Some(id) => {
                result.insert(symbol.clone(), id);
                proof {
                    let (now, next) = (symbols.take(i as int), symbols.take(i + 1));
                    assert(next =~= now.push(symbols[i as int]));
                    assert forall|s: Seq<char>| #[trigger]
                        next.contains(s) == (now.contains(s) || s == symbols[i as int]) by {
                        if now.contains(s) {
                            let j = now.index_of(s);
                            assert(next[j] == s);
                        }
                        assert(next[i as int] == symbols[i as int]);
                        if next.contains(s) {
                            let j = next.index_of(s);
                            assert(j < i ==> now[j] == s);
                        }
                    }
                    assert(result@ =~= chosen(next, mapper@));
                }
            },
            None => {
                let mut e: String = String::from_str("Symbol ");
                e.append(symbol.as_str());
                e.append(" not found in symbols.tsv");
                return Err(e);
            },
        }
        i = i + 1;
    }
    assert(symbols.take(i as int) =~= symbols);
    Ok(result)
}

/// Whether the line at place `i` gives `symbol` the number `id`.
pub open spec fn gives(
    lines: Seq<Result<Seq<char>, Seq<char>>>,
    i: int,
    symbol: Seq<char>,
    id: u64,
) -> bool {
    &&& 0 <= i < lines.len()
    &&& row(lines[i], (i + 1) as nat) == Row::Entry(symbol, id)
}

/// The table holds what the lines give and nothing else, and of several lines
/// for one symbol the last one counts.
pub proof fn law_last_line_counts(
    lines: Seq<Result<Seq<char>, Seq<char>>>,
    symbol: Seq<char>,
    id: u64,
)
    requires
        table(lines) is Ok,
    ensures
        ({
            let m = table(lines)->Ok_0;
            (m.contains_key(symbol) && m[symbol] == id) <==> exists|i: int|
                {
                    &&& #[trigger] gives(lines, i, symbol, id)
                    &&& forall|j: int, other: u64|
                        i < j ==> !#[trigger] gives(lines, j, symbol, other)
                }
        }),
    decreases lines.len(),
{
    let m = table(lines)->Ok_0;
    if lines.len() > 0 {
        let less = lines.drop_last();
        let n = lines.len() - 1;
        law_last_line_counts(less, symbol, id);
        assert forall|j: int, other: u64| j < n implies #[trigger] gives(
            lines,
            j,
            symbol,
            other,
        ) == gives(less, j, symbol, other) by {}
        assert forall|j: int, other: u64| j > n implies !#[trigger] gives(
            lines,
            j,
            symbol,
            other,
        ) by {}
        match row(lines.last(), lines.len()) {
            Row::Entry(s, v) => {
                if s == symbol {
                    assert(gives(lines, n, symbol, v));
                } else {
                    assert(forall|other: u64| !#[trigger] gives(lines, n, symbol, other));
                }
            },
            _ => {
                assert(forall|other: u64| !#[trigger] gives(lines, n, symbol, other));
            },
        }
        if m.contains_key(symbol) && m[symbol] == id {
            if gives(lines, n, symbol, id) {
                assert(forall|j: int, other: u64| n < j ==> !#[trigger] gives(
                    lines,
                    j,
                    symbol,
                    other,
                ));
            } else {
                let i = choose|i: int|
                    {
                        &&& #[trigger] gives(less, i, symbol, id)
                        &&& forall|j: int, other: u64|
                            i < j ==> !#[trigger] gives(less, j, symbol, other)
                    };
                assert(gives(lines, i, symbol, id));
                assert forall|j: int, other: u64| i < j implies !#[trigger] gives(
                    lines,
                    j,
                    symbol,
                    other,
                ) by {
                    if j < n {
                        assert(!gives(less, j, symbol, other));
                    }
                }
            }
        }
        if exists|i: int|
            {
                &&& #[trigger] gives(lines, i, symbol, id)
                &&& forall|j: int, other: u64|
                    i < j ==> !#[trigger] gives(lines, j, symbol, other)
            } {
            let i = choose|i: int|
                {
                    &&& #[trigger] gives(lines, i, symbol, id)
                    &&& forall|j: int, other: u64|
                        i < j ==> !#[trigger] gives(lines, j, symbol, other)
                };
            if i < n {
                assert(gives(less, i, symbol, id));
                assert forall|j: int, other: u64| i < j implies !#[trigger] gives(
                    less,
                    j,
                    symbol,
                    other,
                ) by {
                    assert(!gives(lines, j, symbol, other));
                }
            }
        }
    }
}

/// The case in which a symbol is written does not matter to its number.
pub proof fn law_case_does_not_matter(known: Map<Seq<char>, u64>, a: Seq<char>, b: Seq<char>)
    requires
        text::upper(a) == text::upper(b),
    ensures
        lookup(known, a) == lookup(known, b),
{
}

/// In ASCII a symbol that is listed in one case and known in another is found:
/// what matters of a text is its upper-case form alone.
pub proof fn law_ascii_symbol_found(known: Map<Seq<char>, u64>, symbol: Seq<char>)
    requires
        is_ascii_chars(symbol),
    ensures
        lookup(known, text::lower(symbol)) == lookup(known, symbol),
        lookup(known, text::upper(symbol)) == lookup(known, symbol),
        text::upper(symbol) == symbol && known.contains_key(symbol) ==> lookup(known, symbol)
            == Some(known[symbol]),
{
    text::law_ascii_case(symbol);
}

/// Every listed symbol has, among the chosen ones, the number that the table
/// gives it, and nothing else is chosen.
pub proof fn law_chosen_agrees(
    symbols: Seq<Seq<char>>,
    known: Map<Seq<char>, u64>,
    symbol: Seq<char>,
)
    requires
        forall|i: int| 0 <= i < symbols.len() ==> lookup(known, #[trigger] symbols[i]) is Some,
    ensures
        chosen(symbols, known).contains_key(symbol) <==> symbols.contains(symbol),
        symbols.contains(symbol) ==> lookup(known, symbol) == Some(chosen(symbols, known)[symbol]),
{
}

/// Lines that give no line of the table: those that cannot be read, those with nothing
/// but white space, and those that do not have two columns, one tab between them.
pub proof fn law_rows_without_entry(line: Result<Seq<char>, Seq<char>>, num: nat)
    ensures
        line matches Err(e) ==> row(line, num) == Row::Fault(
            "Error reading line "@ + text::dec(num) + ": "@ + e,
        ),
        line matches Ok(s) ==> {
            let t = text::trimmed(s);
            &&& row(line, num) is Blank <==> t.len() == 0
            &&& t.len() > 0 && count(t, '\t') != 1 ==> row(line, num) == Row::Fault(
                "Invalid format at line "@ + text::dec(num) + ": expected 2 columns, got "@
                    + text::dec(count(t, '\t') + 1),
            )
        },
{
    if let Ok(s) = line {
        lemma_pieces_counted(text::trimmed(s), '\t');
    }
}

/// A line of two columns gives its symbol, in upper case, the number in its first
/// column, where that is one of 64 bits; where it is not, the line is at fault.
pub proof fn law_row_of_two_columns(s: Seq<char>, num: nat, first: Seq<char>, second: Seq<char>)
    requires
        text::trimmed(s) == first + seq!['\t'] + second,
        !first.contains('\t'),
        !second.contains('\t'),
    ensures
        ({
            let id = text::integer(text::trimmed(first), false);
            let read = id is Some && id->0 <= u64::MAX;
            &&& read ==> row(Ok(s), num) == Row::Entry(
                text::upper(text::trimmed(second)),
                id->0 as u64,
            )
            &&& !read ==> row(Ok(s), num) == Row::Fault(
                "Invalid symbol_id at line "@ + text::dec(num) + ": "@ + text::u64_fault(
                    text::trimmed(first),
                ),
            )
        }),
{
    text::lemma_split_pair(first, second, '\t');
}

/// A line of digits, a tab and a symbol gives the symbol, in upper case, the number that
/// the digits write.
pub proof fn law_plain_row(digits: Seq<char>, symbol: Seq<char>, num: nat)
    requires
        digits.len() > 0,
        text::all_digits(digits),
        text::digits_value(digits) <= u64::MAX,
        symbol.len() > 0,
        !text::white(symbol[0]),
        !text::white(symbol.last()),
        !symbol.contains('\t'),
    ensures
        row(Ok(digits + seq!['\t'] + symbol), num) == Row::Entry(
            text::upper(symbol),
            text::digits_value(digits) as u64,
        ),
{
    let s = digits + seq!['\t'] + symbol;
    assert(s[0] == digits[0]);
    assert(s.last() == symbol.last());
    assert(digits[digits.len() - 1] == digits.last());
    assert(!digits.contains('\t'));
    law_row_of_two_columns(s, num, digits, symbol);
}

/// How often a character occurs in a text.
pub open spec fn count(s: Seq<char>, c: char) -> nat
    decreases s.len(),
{
    if s.len() == 0 {
        0
    } else {
        count(s.drop_last(), c) + if s.last() == c {
            1nat
        } else {
            0nat
        }
    }
}

proof fn lemma_pieces_counted(s: Seq<char>, c: char)
    ensures
        text::split_on(s, c).len() == count(s, c) + 1,
    decreases s.len(),
{
    if s.len() > 0 {
        lemma_pieces_counted(s.drop_last(), c);
    }
}

/// A table is loaded just where no line is at fault; where some are, the fault is that
/// of the first of them.
pub proof fn law_first_fault_counts(lines: Seq<Result<Seq<char>, Seq<char>>>)
    ensures
        table(lines) is Ok <==> forall|i: int|
            0 <= i < lines.len() ==> !(row(#[trigger] lines[i], (i + 1) as nat) is Fault),
        table(lines) matches Err(e) ==> exists|i: int|
            {
                &&& 0 <= i < lines.len()
                &&& row(#[trigger] lines[i], (i + 1) as nat) == Row::Fault(e)
                &&& forall|j: int|
                    0 <= j < i ==> !(row(#[trigger] lines[j], (j + 1) as nat) is Fault)
            },
    decreases lines.len(),
{
    if lines.len() > 0 {
        let less = lines.drop_last();
        let n = lines.len() - 1;
        law_first_fault_counts(less);
        assert forall|i: int| 0 <= i < n implies less[i] == #[trigger] lines[i] by {}
        assert(lines[n] == lines.last());
        match table(less) {
            Err(e) => {
                let i = choose|i: int|
                    {
                        &&& 0 <= i < less.len()
                        &&& row(#[trigger] less[i], (i + 1) as nat) == Row::Fault(e)
                        &&& forall|j: int|
                            0 <= j < i ==> !(row(#[trigger] less[j], (j + 1) as nat) is Fault)
                    };
                assert(lines[i] == less[i]);
                assert forall|j: int| 0 <= j < i implies !(row(
                    #[trigger] lines[j],
                    (j + 1) as nat,
                ) is Fault) by {
                    assert(lines[j] == less[j]);
                }
            },
            Ok(_) => {
                assert forall|j: int| 0 <= j < n implies !(row(
                    #[trigger] lines[j],
                    (j + 1) as nat,
                ) is Fault) by {
                    assert(lines[j] == less[j]);
                }
            },
        }
    }
}

/// A symbol has a number just where the table has one for its upper-case form.
pub proof fn law_lookup(known: Map<Seq<char>, u64>, symbol: Seq<char>, id: u64)
    ensures
        lookup(known, symbol) == Some(id) <==> known.contains_pair(text::upper(symbol), id),
        lookup(known, symbol) is None <==> !known.contains_key(text::upper(symbol)),
{
}

/// The listed symbols are the lines without the white space at their ends, those that
/// are not empty, in their order and in upper case.
pub proof fn law_listed(lines: Seq<Seq<char>>)
    ensures
        listed(lines.map_values(|s: Seq<char>| Ok::<Seq<char>, Seq<char>>(s))) == Ok::<
            Seq<Seq<char>>,
            Seq<char>,
        >(
            lines.map_values(|s: Seq<char>| text::trimmed(s)).filter(
                |s: Seq<char>| s.len() > 0,
            ).map_values(|s: Seq<char>| text::upper(s)),
        ),
    decreases lines.len(),
{
    reveal(Seq::filter);
    let read = |s: Seq<char>| Ok::<Seq<char>, Seq<char>>(s);
    let cut = |s: Seq<char>| text::trimmed(s);
    let kept = |s: Seq<char>| s.len() > 0;
    let up = |s: Seq<char>| text::upper(s);
    if lines.len() == 0 {
        assert(lines.map_values(cut).filter(kept).map_values(up) =~= Seq::<Seq<char>>::empty());
    } else {
        let less = lines.drop_last();
        law_listed(less);
        assert(lines.map_values(read).drop_last() =~= less.map_values(read));
        assert(lines.map_values(cut).drop_last() =~= less.map_values(cut));
        assert(lines.map_values(cut).last() == text::trimmed(lines.last()));
        let before = less.map_values(cut).filter(kept);
        if text::trimmed(lines.last()).len() > 0 {
            assert(before.push(text::trimmed(lines.last())).map_values(up)
                =~= before.map_values(up).push(text::upper(text::trimmed(lines.last()))));
        }
    }
}

/// A list is loaded just where every line can be read; where one cannot, the complaint
/// has the error of the first of them.
pub proof fn law_list_faults(lines: Seq<Result<Seq<char>, Seq<char>>>, i: int)
    requires
        0 <= i < lines.len(),
        lines[i] is Err,
        forall|j: int| 0 <= j < i ==> #[trigger] lines[j] is Ok,
    ensures
        listed(lines) == Err::<Seq<Seq<char>>, Seq<char>>(
            "Error reading subscribe file: "@ + lines[i]->Err_0,
        ),
{
    let upto = lines.take(i + 1);
    assert(upto.drop_last() =~= lines.take(i));
    lemma_read_lines_listed(lines.take(i));
    assert(upto.last() == lines[i]);
    lemma_list_fault_stays(lines, i + 1);
}

proof fn lemma_read_lines_listed(lines: Seq<Result<Seq<char>, Seq<char>>>)
    requires
        forall|j: int| 0 <= j < lines.len() ==> #[trigger] lines[j] is Ok,
    ensures
        listed(lines) is Ok,
    decreases lines.len(),
{
    if lines.len() > 0 {
        let less = lines.drop_last();
        assert forall|j: int| 0 <= j < less.len() implies #[trigger] less[j] is Ok by {
            assert(less[j] == lines[j]);
        }
        lemma_read_lines_listed(less);
        assert(lines[lines.len() - 1] is Ok);
    }
}

} // verus!
