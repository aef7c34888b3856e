//! The pages that are read, and the pattern that each is searched with.
//!
//! An airport's page lists the airport's gates; an airline's page lists the
//! airline's flights with the gates they use. The text of a page is fetched
//! elsewhere and handed in.

use crate::candidate::Gate;
use crate::error::Error;
use crate::extract::{
    extract, extracted_flights, extracted_gates, extractor, flight_groups, gate_groups,
    rows_are_full,
};
use vstd::prelude::*;

verus! {

/// Whether `r` is what the page of an airport yields: the sightings that the
/// pattern's matches give, or the failure of the pattern to match at all.
pub open spec fn is_gates_of_page(
    r: Result<Vec<Gate>, Error>,
    page: Seq<char>,
    code: Seq<char>,
    pattern: Seq<char>,
    text: Seq<char>,
) -> bool {
    &&& rows_are_full(pattern, text, gate_groups())
    &&& match r {
        Ok(gates) => extracted_gates(page, code, pattern, text) == Some(gates.deep_view()),
        Err(e) => {
            &&& extracted_gates(page, code, pattern, text) is None
            &&& e matches Error::ExtractionFailure(p)
            &&& p@ == page
        },
    }
}

/// Whether `r` is what the page of an airline yields: the sightings that the
/// pattern's matches give, or the failure of the pattern to match at all.
pub open spec fn is_flights_of_page(
    r: Result<Vec<(Gate, Gate, String)>, Error>,
    airline: Seq<char>,
    page: Seq<char>,
    prefix: Seq<char>,
    pattern: Seq<char>,
    text: Seq<char>,
) -> bool {
    &&& rows_are_full(pattern, text, flight_groups())
    &&& match r {
        Ok(flights) => extracted_flights(airline, page, prefix, pattern, text) == Some(
            flights.deep_view(),
        ),
        Err(e) => {
            &&& extracted_flights(airline, page, prefix, pattern, text) is None
            &&& e matches Error::ExtractionFailure(p)
            &&& p@ == page
        },
    }
}

/// The page of the airport PCE.
pub const PCE_PAGE: &'static str = "Peacopolis International Airport";

/// The pattern for a gate on the page of PCE.
pub const PCE_PATTERN: &'static str = r"\n\|(?P<code>[^|]*?)(?:\|\|\[\[(?:[^|\]]*?\|)?(?P<airline>.*?)]].*?|)\|\|.*Service";

/// The gates that the page of PCE lists; `text` is the page's text.
pub fn pce(text: &str) -> (r: Result<Vec<Gate>, Error>)
    ensures
        is_gates_of_page(r, PCE_PAGE@, "PCE"@, PCE_PATTERN@, text@),
{
    extractor(PCE_PAGE, "PCE", PCE_PATTERN, text)
}

/// The page of the airport MWT.
pub const MWT_PAGE: &'static str = "Miu Wan Tseng Tsz Leng International Airport";

/// The pattern for a gate on the page of MWT.
pub const MWT_PATTERN: &'static str = r"\|-\n\|(?P<code>.*?)\n\|(?:\[\[(?:[^|\]]*?\|)?(?P<airline>.*?)]]|\n)";

/// The gates that the page of MWT lists; `text` is the page's text.
pub fn mwt(text: &str) -> (r: Result<Vec<Gate>, Error>)
    ensures
        is_gates_of_page(r, MWT_PAGE@, "MWT"@, MWT_PATTERN@, text@),
{
    extractor(MWT_PAGE, "MWT", MWT_PATTERN, text)
}

/// The page of the airport KEK.
pub const KEK_PAGE: &'static str = "Kazeshima Eumi Konaejima Airport";

/// The pattern for a gate on the page of KEK.
pub const KEK_PATTERN: &'static str = r"\|(?P<code>[^|}]*?)\|\|(?:\[\[(?:[^|\]]*?\|)?(?P<airline>.*?)]]|[^|]*?)\|\|";

/// The gates that the page of KEK lists; `text` is the page's text.
pub fn kek(text: &str) -> (r: Result<Vec<Gate>, Error>)
    ensures
        is_gates_of_page(r, KEK_PAGE@, "KEK"@, KEK_PATTERN@, text@),
{
    extractor(KEK_PAGE, "KEK", KEK_PATTERN, text)
}

/// The page of the airport LAR.
pub const LAR_PAGE: &'static str = "Larkspur Lilyflower International Airport";

/// The pattern for a gate on the page of LAR.
pub const LAR_PATTERN: &'static str = r"(?s)'''(?P<code>[^|]*?)'''\|\|(?:\[\[(?:[^|\]]*?\|)?(?P<airline>.*?)]]|[^|]*?)\|\|.*?status";

/// The gates that the page of LAR lists; `text` is the page's text.
pub fn lar(text: &str) -> (r: Result<Vec<Gate>, Error>)
    ensures
        is_gates_of_page(r, LAR_PAGE@, "LAR"@, LAR_PATTERN@, text@),
{
    extractor(LAR_PAGE, "LAR", LAR_PATTERN, text)
}

/// The page of the airport ABG.
pub const ABG_PAGE: &'static str = "Antioch-Bay Point Garvey International Airport";

/// The pattern for a gate on the page of ABG.
pub const ABG_PATTERN: &'static str = r"\|(?P<code>.*?\d)\|\| ?(?:\[\[(?:[^|\]]*?\|)?(?P<airline>.*?)]]|[^|]*?)(?:\|\||\n)";

/// The gates that the page of ABG lists; `text` is the page's text.
pub fn abg(text: &str) -> (r: Result<Vec<Gate>, Error>)
    ensures
        is_gates_of_page(r, ABG_PAGE@, "ABG"@, ABG_PATTERN@, text@),
{
    extractor(ABG_PAGE, "ABG", ABG_PATTERN, text)
}

/// The page of the airport OPA.
pub const OPA_PAGE: &'static str = "Oparia LeTourneau International Airport";

/// The pattern for a gate on the page of OPA.
pub const OPA_PATTERN: &'static str = r"\|-\n\|(?P<code>.*?)\n\|(?:\[\[(?:[^|\]]*?\|)?(?P<airline>.*?)]]|[^|]*?)";

/// The gates that the page of OPA lists; `text` is the page's text.
pub fn opa(text: &str) -> (r: Result<Vec<Gate>, Error>)
    ensures
        is_gates_of_page(r, OPA_PAGE@, "OPA"@, OPA_PATTERN@, text@),
{
    extractor(OPA_PAGE, "OPA", OPA_PATTERN, text)
}

/// The page of the airport CHB.
pub const CHB_PAGE: &'static str = "Chan Bay Municipal Airport";

/// The pattern for a gate on the page of CHB.
pub const CHB_PATTERN: &'static str = r"\|Gate (?P<code>.*?)\n\|.\n\|(?:\[\[(?:[^|\]]*?\|)?(?P<airline>.*?)]]|[^|]*?)";

/// The gates that the page of CHB lists; `text` is the page's text.
pub fn chb(text: &str) -> (r: Result<Vec<Gate>, Error>)
    ensures
        is_gates_of_page(r, CHB_PAGE@, "CHB"@, CHB_PATTERN@, text@),
{
    extractor(CHB_PAGE, "CHB", CHB_PATTERN, text)
}

/// The page of the airport CBZ.
pub const CBZ_PAGE: &'static str = "Chan Bay Zeta Airport";

/// The pattern for a gate on the page of CBZ.
pub const CBZ_PATTERN: &'static str = r"\|(?P<code>[AB]\d*?)\n\|(?:\[\[(?:[^|\]]*?\|)?(?P<airline>.*?)]]|[^|]*?)";

/// The gates that the page of CBZ lists; `text` is the page's text.
pub fn cbz(text: &str) -> (r: Result<Vec<Gate>, Error>)
    ensures
        is_gates_of_page(r, CBZ_PAGE@, "CBZ"@, CBZ_PATTERN@, text@),
{
    extractor(CBZ_PAGE, "CBZ", CBZ_PATTERN, text)
}

/// The page of the airport CBI.
pub const CBI_PAGE: &'static str = "Chan Bay International Airport";

/// The pattern for a gate on the page of CBI.
pub const CBI_PATTERN: &'static str = r"\|(?P<code>\d+?)\n\|(?:\[\[(?:[^|\]]*?\|)?(?P<airline>.*?)]]|[^|]*?)";

/// The gates that the page of CBI lists; `text` is the page's text.
pub fn cbi(text: &str) -> (r: Result<Vec<Gate>, Error>)
    ensures
        is_gates_of_page(r, CBI_PAGE@, "CBI"@, CBI_PATTERN@, text@),
{
    extractor(CBI_PAGE, "CBI", CBI_PATTERN, text)
}

/// The page of the airport DJE.
pub const DJE_PAGE: &'static str = "Deadbush Johnston-Euphorial Airport";

/// The pattern for a gate on the page of DJE.
pub const DJE_PATTERN: &'static str = r"\|(?P<code>\d+?)\n\| (?:(?P<airline>[^\n<]*)|[^|]*?)";

/// The gates that the page of DJE lists; `text` is the page's text.
pub fn dje(text: &str) -> (r: Result<Vec<Gate>, Error>)
    ensures
        is_gates_of_page(r, DJE_PAGE@, "DJE"@, DJE_PATTERN@, text@),
{
    extractor(DJE_PAGE, "DJE", DJE_PATTERN, text)
}

/// The page of the airport VDA.
pub const VDA_PAGE: &'static str = "Deadbush Valletta Desert Airport";

/// The pattern for a gate on the page of VDA.
pub const VDA_PATTERN: &'static str = r"\|(?P<code>\d+?)\|\|(?:\[\[(?:[^|\]]*?\|)?(?P<airline>.*?)]]|(?P<airline2>\S[^|]*)|[^|]*?)";

/// The gates that the page of VDA lists; `text` is the page's text.
pub fn vda(text: &str) -> (r: Result<Vec<Gate>, Error>)
    ensures
        is_gates_of_page(r, VDA_PAGE@, "VDA"@, VDA_PATTERN@, text@),
{
    extractor(VDA_PAGE, "VDA", VDA_PATTERN, text)
}

/// The page of the airport WMI.
pub const WMI_PAGE: &'static str = "West Mesa International Airport";

/// The pattern for a gate on the page of WMI.
pub const WMI_PATTERN: &'static str = r"\|Gate (?P<code>.*?)\n\| (?:\[\[(?:[^|\]]*?\|)?(?P<airline>.*?)]]|[^|]*?)";

/// The gates that the page of WMI lists; `text` is the page's text.
pub fn wmi(text: &str) -> (r: Result<Vec<Gate>, Error>)
    ensures
        is_gates_of_page(r, WMI_PAGE@, "WMI"@, WMI_PATTERN@, text@),
{
    extractor(WMI_PAGE, "WMI", WMI_PATTERN, text)
}

/// The page of the airport DFM.
pub const DFM_PAGE: &'static str = "Deadbush Foxfoe Memorial Airport";

/// The pattern for a gate on the page of DFM.
pub const DFM_PATTERN: &'static str = r"\|Gate (?P<code>.*?)\n\|(?P<size>.*?)\n\|(?:\[\[(?:[^|\]]*?\|)?(?P<airline>.*?)]]|(?P<airline2>\S[^|]*)|[^|]*?)";

/// The gates that the page of DFM lists; `text` is the page's text.
pub fn dfm(text: &str) -> (r: Result<Vec<Gate>, Error>)
    ensures
        is_gates_of_page(r, DFM_PAGE@, "DFM"@, DFM_PATTERN@, text@),
{
    extractor(DFM_PAGE, "DFM", DFM_PATTERN, text)
}

/// The page of the airport GSM.
pub const GSM_PAGE: &'static str = "Gemstride Melodia Airfield";

/// The pattern for a gate on the page of GSM.
pub const GSM_PATTERN: &'static str = r"\|(?P<code>.*?)\n\|'''(?:\[\[(?:[^|\]]*?\|)?(?P<airline>.*?)]]|(?P<airline2>[^N]\S[^|]*)|[^|]*?)'''";

/// The gates that the page of GSM lists; `text` is the page's text.
pub fn gsm(text: &str) -> (r: Result<Vec<Gate>, Error>)
    ensures
        is_gates_of_page(r, GSM_PAGE@, "GSM"@, GSM_PATTERN@, text@),
{
    extractor(GSM_PAGE, "GSM", GSM_PATTERN, text)
}

/// The page of the airport VFW.
pub const VFW_PAGE: &'static str = "Venceslo-Fifth Ward International Airport";

/// The pattern for a gate on the page of VFW.
pub const VFW_PATTERN: &'static str = r"\|-\n\|(?P<code>\w\d*?)\n\|(?:\[\[(?:[^|\]]*?\|)?(?P<airline>.*?)]]|(?P<airline2>\S[^|]*)|[^|]*?)";

/// The gates that the page of VFW lists; `text` is the page's text.
pub fn vfw(text: &str) -> (r: Result<Vec<Gate>, Error>)
    ensures
        is_gates_of_page(r, VFW_PAGE@, "VFW"@, VFW_PATTERN@, text@),
{
    extractor(VFW_PAGE, "VFW", VFW_PATTERN, text)
}

/// The page of the airport SDZ.
pub const SDZ_PAGE: &'static str = "San Dzobiak International Airport";

/// The pattern for a gate on the page of SDZ.
pub const SDZ_PATTERN: &'static str = r"\|-\n\|(?P<code>\w\d+?)\n\|(?:\[\[(?:[^|\]]*?\|)?(?P<airline>.*?)]]|(?P<airline2>\S[^|]*)|[^|]*?)";

/// The gates that the page of SDZ lists; `text` is the page's text.
pub fn sdz(text: &str) -> (r: Result<Vec<Gate>, Error>)
    ensures
        is_gates_of_page(r, SDZ_PAGE@, "SDZ"@, SDZ_PATTERN@, text@),
{
    extractor(SDZ_PAGE, "SDZ", SDZ_PATTERN, text)
}

/// The page that lists the flights of Astrella.
pub const ASTRELLA_PAGE: &'static str = "Astrella";

/// The pattern for a flight on the page of Astrella.
pub const ASTRELLA_PATTERN: &'static str = r"\{\{AstrellaFlight\|code = (?P<code>[^$\n]*?)\|airport1 = (?P<a1>[^\n]*?)\|gate1 = (?P<g1>[^\n]*?)\|airport2 = (?P<a2>[^\n]*?)\|gate2 = (?P<g2>[^\n]*?)\|size = (?P<s>[^\n]*?)\|status = active}}";

/// The flights that the page of Astrella lists; `text` is the page's text.
pub fn astrella(text: &str) -> (r: Result<Vec<(Gate, Gate, String)>, Error>)
    ensures
        is_flights_of_page(r, "Astrella"@, ASTRELLA_PAGE@, ""@, ASTRELLA_PATTERN@, text@),
{
    extract("Astrella", ASTRELLA_PAGE, "", ASTRELLA_PATTERN, text)
}

/// The page that lists the flights of Turbula.
pub const TURBULA_PAGE: &'static str = "Template:TurbulaFlightList";

/// The pattern for a flight on the page of Turbula.
pub const TURBULA_PATTERN: &'static str = r"code = (?P<code>LU\d*).*?(?:\n.*?)?airport1 = (?P<a1>.*?) .*?airport2 = (?P<a2>.*?) .*?status = active";

/// The flights that the page of Turbula lists; `text` is the page's text.
pub fn turbula(text: &str) -> (r: Result<Vec<(Gate, Gate, String)>, Error>)
    ensures
        is_flights_of_page(r, "Turbula"@, TURBULA_PAGE@, ""@, TURBULA_PATTERN@, text@),
{
    extract("Turbula", TURBULA_PAGE, "", TURBULA_PATTERN, text)
}

/// The page that lists the flights of IntraAir.
pub const INTRA_AIR_PAGE: &'static str = "IntraAir/Flight List";

/// The pattern for a flight on the page of IntraAir.
pub const INTRA_AIR_PATTERN: &'static str = r"Flight (?P<code>.*?)}}.*?\n.*?'''(?P<a1>.*?)'''.*?\n.*?'''(?P<a2>.*?)'''.*?\n.*?\n.*?\n.*?open.*?\n.*?\n.*?\n.*?'''(?P<g1>[^']*?)'''\n.*?'''(?P<g2>[^']*?)'''\n";

/// The flights that the page of IntraAir lists; `text` is the page's text.
pub fn intra_air(text: &str) -> (r: Result<Vec<(Gate, Gate, String)>, Error>)
    ensures
        is_flights_of_page(r, "IntraAir"@, INTRA_AIR_PAGE@, "IA"@, INTRA_AIR_PATTERN@, text@),
{
    extract("IntraAir", INTRA_AIR_PAGE, "IA", INTRA_AIR_PATTERN, text)
}

/// The page that lists the flights of BluAir.
pub const BLU_AIR_PAGE: &'static str = "List of BluAir flights";

/// The pattern for a flight on the page of BluAir.
pub const BLU_AIR_PATTERN: &'static str = r"\{\{BA\|(?P<code>.*?)\|(?P<a1>.*?)\|(?P<a2>.*?)\|.*?\|.*?\|(?P<g1>.*?)\|(?P<g2>.*?)\|a\|.*?\|.}}";

/// The flights that the page of BluAir lists; `text` is the page's text.
pub fn blu_air(text: &str) -> (r: Result<Vec<(Gate, Gate, String)>, Error>)
    ensures
        is_flights_of_page(r, "BluAir"@, BLU_AIR_PAGE@, ""@, BLU_AIR_PATTERN@, text@),
{
    extract("BluAir", BLU_AIR_PAGE, "", BLU_AIR_PATTERN, text)
}

/// The page that lists the flights of FliHigh.
pub const FLI_HIGH_PAGE: &'static str = "FliHigh Airlines";

/// The pattern for a flight on the page of FliHigh.
pub const FLI_HIGH_PATTERN: &'static str = r"\{\{FHList\|(?P<code>.*?)\|(?P<a1>.*?)\|(?P<a2>.*?)\|.*?\|.*?\|(?P<g1>.*?)\|(?P<g2>.*?)\|a\|.*?\|FH}}";

/// The flights that the page of FliHigh lists; `text` is the page's text.
pub fn fli_high(text: &str) -> (r: Result<Vec<(Gate, Gate, String)>, Error>)
    ensures
        is_flights_of_page(r, "FliHigh"@, FLI_HIGH_PAGE@, ""@, FLI_HIGH_PATTERN@, text@),
{
    extract("FliHigh", FLI_HIGH_PAGE, "", FLI_HIGH_PATTERN, text)
}

/// The page that lists the flights of Oceanic Langus Airways.
pub const OLA_PAGE: &'static str = "Template:AerL";

/// The pattern for a flight on the page of Oceanic Langus Airways.
pub const OLA_PATTERN: &'static str = r"'''(?P<code>.*?)'''.*?\n.*?'''(?P<a1>.*?)'''.*?\n.*?\n.*?'''(?P<a2>.*?)'''.*?\n.*?\n.*?Active";

/// The flights that the page of Oceanic Langus Airways lists; `text` is the page's text.
pub fn ola(text: &str) -> (r: Result<Vec<(Gate, Gate, String)>, Error>)
    ensures
        is_flights_of_page(r, "Oceanic Langus Airways"@, OLA_PAGE@, ""@, OLA_PATTERN@, text@),
{
    extract("Oceanic Langus Airways", OLA_PAGE, "", OLA_PATTERN, text)
}

} // verus!
