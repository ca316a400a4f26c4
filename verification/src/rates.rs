//! The record of one page: the rate of each of five currencies.

use vstd::prelude::*;
use vstd::string::*;
use crate::fields::RawFieldMap;
use crate::numeric::Decimal;

verus! {

/// The currencies that every record holds, in the order in which they are
/// looked up.
#[derive(Clone, Copy, Debug, PartialEq, Eq, Structural)]
pub enum Currency {
    Eur,
    Cny,
    Try,
    Rub,
    Usd,
}

/// The label under which a page gives the rate of a currency.
pub open spec fn key_of(currency: Currency) -> Seq<char> {
    match currency {
        Currency::Eur => "eur"@,
        Currency::Cny => "cny"@,
        Currency::Try => "try"@,
        Currency::Rub => "rub"@,
        Currency::Usd => "usd"@,
    }
}

impl Currency {
    pub fn key(&self) -> (key: &'static str)
        ensures
            key@ == key_of(*self),
    {
        match self {
            Currency::Eur => "eur",
            Currency::Cny => "cny",
            Currency::Try => "try",
            Currency::Rub => "rub",
            Currency::Usd => "usd",
        }
    }
}

/// The five rates of one page. There is no record with a rate missing.
#[derive(Debug)]
pub struct DollarRates {
    eur: Decimal,
    cny: Decimal,
    _try: Decimal,
    rub: Decimal,
    usd: Decimal,
}

/// A record as the literals of its five rates.
pub struct Rates {
    pub eur: Seq<char>,
    pub cny: Seq<char>,
    pub _try: Seq<char>,
    pub rub: Seq<char>,
    pub usd: Seq<char>,
}

impl Rates {
    pub open spec fn of(self, currency: Currency) -> Seq<char> {
        match currency {
            Currency::Eur => self.eur,
            Currency::Cny => self.cny,
            Currency::Try => self._try,
            Currency::Rub => self.rub,
            Currency::Usd => self.usd,
        }
    }
}

impl View for DollarRates {
    type V = Rates;

    closed spec fn view(&self) -> Rates {
        Rates {
            eur: self.eur@,
            cny: self.cny@,
            _try: self._try@,
            rub: self.rub@,
            usd: self.usd@,
        }
    }
}

/// A record in one line: each currency with its rate, the rate as the
/// literal that was read. A rate read from "40,10" is written `40.10`, with
/// the zero that a float would not show.
pub open spec fn rates_text(rates: Rates) -> Seq<char> {
    "eur => "@ + rates.eur + " | cny => "@ + rates.cny + " | try => "@ + rates._try
        + " | rub => "@ + rates.rub + " | usd => "@ + rates.usd
}

impl DollarRates {
    /// The record in one line, each rate as the literal that was read.
    pub fn to_string(&self) -> (text: String)
        ensures
            text@ == rates_text(self@),
    {
        let mut text = "eur => ".to_owned();
        text.append(self.eur.as_str());
        text.append(" | cny => ");
        text.append(self.cny.as_str());
        text.append(" | try => ");
        text.append(self._try.as_str());
        text.append(" | rub => ");
        text.append(self.rub.as_str());
        text.append(" | usd => ");
        text.append(self.usd.as_str());
        text
    }

    /// The rate of a currency.
    pub fn rate(&self, currency: Currency) -> (rate: &Decimal)
        ensures
            rate@ == self@.of(currency),
    {
        match currency {
            Currency::Eur => &self.eur,
            Currency::Cny => &self.cny,
            Currency::Try => &self._try,
            Currency::Rub => &self.rub,
            Currency::Usd => &self.usd,
        }
    }
}

impl Clone for DollarRates {
    fn clone(&self) -> (copy: Self)
        ensures
            copy@ == self@,
    {
        DollarRates {
            eur: self.eur.clone(),
            cny: self.cny.clone(),
            _try: self._try.clone(),
            rub: self.rub.clone(),
            usd: self.usd.clone(),
        }
    }
}

/// Why fields make no record: the currencies that they lack, in order.
#[derive(Debug)]
pub struct AssemblyError {
    pub missing: Vec<Currency>,
}

/// The currency itself where the fields lack it.
pub open spec fn lacking(fields: Map<Seq<char>, Seq<char>>, currency: Currency) -> Seq<Currency> {
    if fields.contains_key(key_of(currency)) {
        Seq::empty()
    } else {
        seq![currency]
    }
}

/// The currencies that the fields lack, in order.
pub open spec fn missing(fields: Map<Seq<char>, Seq<char>>) -> Seq<Currency> {
    lacking(fields, Currency::Eur) + lacking(fields, Currency::Cny) + lacking(
        fields,
        Currency::Try,
    ) + lacking(fields, Currency::Rub) + lacking(fields, Currency::Usd)
}

/// The record that fields make: each rate as the fields give it, or the
/// currencies that they lack.
pub open spec fn assembled(fields: Map<Seq<char>, Seq<char>>) -> Result<Rates, Seq<Currency>> {
    if missing(fields).len() == 0 {
        Ok(
            Rates {
                eur: fields[key_of(Currency::Eur)],
                cny: fields[key_of(Currency::Cny)],
                _try: fields[key_of(Currency::Try)],
                rub: fields[key_of(Currency::Rub)],
                usd: fields[key_of(Currency::Usd)],
            },
        )
    } else {
        Err(missing(fields))
    }
}

/// Whether an assembly gave what the model says.
pub open spec fn assembly_is(
    result: Result<DollarRates, AssemblyError>,
    model: Result<Rates, Seq<Currency>>,
) -> bool {
    match result {
        Ok(rates) => model == Ok::<Rates, Seq<Currency>>(rates@),
        Err(error) => model == Err::<Rates, Seq<Currency>>(error.missing@),
    }
}

/// Looks one currency up, and notes it where the fields lack it.
fn look_up(fields: &RawFieldMap, currency: Currency, absent: &mut Vec<Currency>) -> (rate: Option<
    Decimal,
>)
    ensures
        final(absent)@ == old(absent)@ + lacking(fields@, currency),
        match rate {
            Some(rate) => fields@.contains_key(key_of(currency)) && rate@ == fields@[key_of(
                currency,
            )],
            None => !fields@.contains_key(key_of(currency)),
        },
{
    match fields.get(currency.key()) {
        Some(rate) => {
            assert(absent@ + Seq::<Currency>::empty() =~= absent@);
            Some(rate.clone())
        },
        None => {
            absent.push(currency);
            assert(old(absent)@.push(currency) =~= old(absent)@ + seq![currency]);
            None
        },
    }
}

/// Makes the record of the fields of a page. It takes the five rates as the
/// fields hold them, and fails where one is missing.
pub fn assemble(fields: &RawFieldMap) -> (result: Result<DollarRates, AssemblyError>)
    ensures
        assembly_is(result, assembled(fields@)),
{
    let mut absent: Vec<Currency> = Vec::new();
    let eur = look_up(fields, Currency::Eur, &mut absent);
    let cny = look_up(fields, Currency::Cny, &mut absent);
    let _try = look_up(fields, Currency::Try, &mut absent);
    let rub = look_up(fields, Currency::Rub, &mut absent);
    let usd = look_up(fields, Currency::Usd, &mut absent);
    assert(absent@ =~= missing(fields@));
    match (eur, cny, _try, rub, usd) {
        (Some(eur), Some(cny), Some(_try), Some(rub), Some(usd)) => Ok(
            DollarRates { eur, cny, _try, rub, usd },
        ),
        _ => Err(AssemblyError { missing: absent }),
    }
}

/// Fields that hold all five currencies make a record, and the record holds
/// each rate as the fields do.
pub proof fn lemma_complete_fields_assemble(fields: Map<Seq<char>, Seq<char>>)
    requires
        forall|currency: Currency| fields.contains_key(#[trigger] key_of(currency)),
    ensures
        assembled(fields) matches Ok(rates) && forall|currency: Currency|
            rates.of(currency) == fields[#[trigger] key_of(currency)],
{
    assert(fields.contains_key(key_of(Currency::Eur)));
    assert(fields.contains_key(key_of(Currency::Cny)));
    assert(fields.contains_key(key_of(Currency::Try)));
    assert(fields.contains_key(key_of(Currency::Rub)));
    assert(fields.contains_key(key_of(Currency::Usd)));
    assert(missing(fields) =~= Seq::<Currency>::empty());
}

proof fn lemma_joined_contains(front: Seq<Currency>, back: Seq<Currency>, currency: Currency)
    ensures
        (front + back).contains(currency) <==> front.contains(currency) || back.contains(currency),
{
    let joined = front + back;
    if front.contains(currency) {
        let at = choose|at: int| 0 <= at < front.len() && front[at] == currency;
        assert(joined[at] == currency);
    }
    if back.contains(currency) {
        let at = choose|at: int| 0 <= at < back.len() && back[at] == currency;
        assert(joined[front.len() + at] == currency);
    }
    if joined.contains(currency) {
        let at = choose|at: int| 0 <= at < joined.len() && joined[at] == currency;
        if at < front.len() {
            assert(front[at] == currency);
        } else {
            assert(back[at - front.len()] == currency);
        }
    }
}

proof fn lemma_lacking_contains(fields: Map<Seq<char>, Seq<char>>, asked: Currency, currency: Currency)
    ensures
        lacking(fields, asked).contains(currency) <==> asked == currency && !fields.contains_key(
            key_of(asked),
        ),
{
    let one = lacking(fields, asked);
    if one.contains(currency) {
        let at = choose|at: int| 0 <= at < one.len() && one[at] == currency;
        assert(one[at] == currency);
    }
    if asked == currency && !fields.contains_key(key_of(asked)) {
        assert(one[0] == currency);
    }
}

/// A currency is named as missing when the fields lack it, and then only.
pub proof fn lemma_missing_names_what_lacks(fields: Map<Seq<char>, Seq<char>>, currency: Currency)
    ensures
        missing(fields).contains(currency) <==> !fields.contains_key(key_of(currency)),
{
    let eur = lacking(fields, Currency::Eur);
    let cny = lacking(fields, Currency::Cny);
    let lira = lacking(fields, Currency::Try);
    let rub = lacking(fields, Currency::Rub);
    let usd = lacking(fields, Currency::Usd);
    lemma_lacking_contains(fields, Currency::Eur, currency);
    lemma_lacking_contains(fields, Currency::Cny, currency);
    lemma_lacking_contains(fields, Currency::Try, currency);
    lemma_lacking_contains(fields, Currency::Rub, currency);
    lemma_lacking_contains(fields, Currency::Usd, currency);
    lemma_joined_contains(eur, cny, currency);
    lemma_joined_contains(eur + cny, lira, currency);
    lemma_joined_contains(eur + cny + lira, rub, currency);
    lemma_joined_contains(eur + cny + lira + rub, usd, currency);
}

/// Fields make no record when they lack a currency, and then only.
pub proof fn lemma_assembly_fails_on_a_gap(fields: Map<Seq<char>, Seq<char>>)
    ensures
        assembled(fields) is Err <==> exists|lacked: Currency|
            !fields.contains_key(#[trigger] key_of(lacked)),
{
    let all = missing(fields);
    if exists|lacked: Currency| !fields.contains_key(#[trigger] key_of(lacked)) {
        let lacked = choose|lacked: Currency| !fields.contains_key(#[trigger] key_of(lacked));
        lemma_missing_names_what_lacks(fields, lacked);
    }
    if all.len() > 0 {
        assert(all.contains(all[0]));
        lemma_missing_names_what_lacks(fields, all[0]);
    }
}

/// Fields that lack one currency and no other make no record, and the error
/// names that currency alone.
pub proof fn lemma_one_missing_is_named(fields: Map<Seq<char>, Seq<char>>, currency: Currency)
    requires
        !fields.contains_key(key_of(currency)),
        forall|other: Currency|
            other != currency ==> fields.contains_key(#[trigger] key_of(other)),
    ensures
        assembled(fields) == Err::<Rates, Seq<Currency>>(seq![currency]),
{
    assert(currency != Currency::Eur ==> fields.contains_key(key_of(Currency::Eur)));
    assert(currency != Currency::Cny ==> fields.contains_key(key_of(Currency::Cny)));
    assert(currency != Currency::Try ==> fields.contains_key(key_of(Currency::Try)));
    assert(currency != Currency::Rub ==> fields.contains_key(key_of(Currency::Rub)));
    assert(currency != Currency::Usd ==> fields.contains_key(key_of(Currency::Usd)));
    assert(missing(fields) =~= seq![currency]);
}

} // verus!
