//! The pipeline: from the text of an address book to the CSV table.
//!
//! Each contact gives up its e-mail address and its full name; what is left
//! of it is serialized into the attributes column. A contact that lacks one
//! of the two is skipped or ends the run, as the configuration says. A block
//! that the vCard reader rejects is reported and skipped.

use crate::decode::{decode_single_byte, decoded};
use crate::emit::{
    records_view, table, write_table, OutputRecord, OutputRecordView, WriteError,
};
use crate::extract::{
    after_extract, extracted, first_named, has_named, is_first_named, lemma_extract_two,
    lemma_first_named, Extraction, ExtractionView,
};
use crate::model::{Contact, PropertyView};
use crate::serialize::{lemma_excluded_serialize_empty, serialize, serialized, ExclusionSet};
use crate::vcard::{parsed_view, read_vcards, vcard_blocks, Parsed, ParsedView};
use vstd::prelude::*;

verus! {

/// The name of the property that holds the e-mail address.
pub const EMAIL: &'static str = "EMAIL";

/// The name of the property that holds the full name.
pub const FULL_NAME: &'static str = "FN";

/// The two properties that every row needs.
#[derive(Clone, Copy, Debug, PartialEq, Eq, Structural)]
pub enum Required {
    Email,
    FullName,
}

/// How a required property was missing.
#[derive(Clone, Copy, Debug, PartialEq, Eq, Structural)]
pub enum Absence {
    /// The contact has no property of that name.
    NotFound,
    /// The first property of that name has no value.
    NoValue,
}

/// A required property that a contact could not give.
#[derive(Clone, Copy, Debug, PartialEq, Eq, Structural)]
pub struct Missing {
    pub property: Required,
    pub absence: Absence,
}

/// What to do with a contact that lacks a required property.
#[derive(Clone, Copy, Debug, PartialEq, Eq, Structural)]
pub enum MissingPolicy {
    /// End the run at that contact.
    Abort,
    /// Leave the contact out and go on with the next.
    Skip,
}

/// What a conversion is run with.
#[derive(Clone, Debug)]
pub struct Config {
    /// The property names that the attributes column leaves out.
    pub exclusions: ExclusionSet,
    /// What to do with a contact that lacks its e-mail address or full name.
    pub on_missing_required: MissingPolicy,
}

/// The mathematical content of a [`Config`].
pub struct ConfigView {
    pub excluded: Set<Seq<char>>,
    pub on_missing_required: MissingPolicy,
}

impl View for Config {
    type V = ConfigView;

    open spec fn view(&self) -> ConfigView {
        ConfigView { excluded: self.exclusions@, on_missing_required: self.on_missing_required }
    }
}

impl Config {
    /// The usual configuration: `EMAIL`, `VERSION` and `PRODID` are left out
    /// of the attributes, and a contact that lacks a required property is
    /// skipped.
    pub fn standard() -> (config: Config)
        ensures
            config@.excluded == Set::<Seq<char>>::empty().insert("EMAIL"@).insert(
                "VERSION"@,
            ).insert("PRODID"@),
            config@.on_missing_required == MissingPolicy::Skip,
    {
        Config { exclusions: ExclusionSet::standard(), on_missing_required: MissingPolicy::Skip }
    }
}

/// Something that the run reports beside the table.
#[derive(Clone, Debug, PartialEq, Eq)]
pub enum Diagnostic {
    /// A contact was left out because it lacks a required property.
    Skipped(Missing),
    /// A block was left out because the vCard reader rejected it.
    Malformed(String),
}

/// The mathematical content of a [`Diagnostic`].
pub enum DiagnosticView {
    Skipped(Missing),
    Malformed(Seq<char>),
}

impl View for Diagnostic {
    type V = DiagnosticView;

    open spec fn view(&self) -> DiagnosticView {
        match self {
            Diagnostic::Skipped(missing) => DiagnosticView::Skipped(*missing),
            Diagnostic::Malformed(message) => DiagnosticView::Malformed(message@),
        }
    }
}

/// The contents of a list of diagnostics, in order.
pub open spec fn diagnostics_view(diagnostics: Seq<Diagnostic>) -> Seq<DiagnosticView> {
    diagnostics.map_values(|d: Diagnostic| d@)
}

/// What the pipeline decided for a list of blocks.
#[derive(Clone, Debug, PartialEq, Eq)]
pub struct Run {
    /// The rows, in input order.
    pub records: Vec<OutputRecord>,
    /// What was left out and why, in input order.
    pub diagnostics: Vec<Diagnostic>,
    /// The missing property that ended the run, if one did.
    pub halted: Option<Missing>,
}

/// The mathematical content of a [`Run`].
pub struct RunView {
    pub records: Seq<OutputRecordView>,
    pub diagnostics: Seq<DiagnosticView>,
    pub halted: Option<Missing>,
}

impl View for Run {
    type V = RunView;

    open spec fn view(&self) -> RunView {
        RunView {
            records: records_view(self.records@),
            diagnostics: diagnostics_view(self.diagnostics@),
            halted: self.halted,
        }
    }
}

/// Why a conversion ended early.
#[derive(Clone, Copy, Debug, PartialEq, Eq, Structural)]
pub enum ConvertError {
    /// A contact lacks a required property and the policy is to abort.
    MissingRequired(Missing),
    /// The table could not be written.
    OutputWrite,
}

/// What a conversion hands back.
#[derive(Clone, Debug, PartialEq, Eq)]
pub struct Conversion {
    /// The table: the header line and one line for each row. Empty where the
    /// table could not be written.
    pub csv: String,
    /// What was left out and why, in input order.
    pub diagnostics: Vec<Diagnostic>,
    /// Why the conversion ended early, if it did.
    pub failure: Option<ConvertError>,
}

/// The mathematical content of a [`Conversion`].
pub struct ConversionView {
    pub csv: Seq<char>,
    pub diagnostics: Seq<DiagnosticView>,
    pub failure: Option<ConvertError>,
}

impl View for Conversion {
    type V = ConversionView;

    open spec fn view(&self) -> ConversionView {
        ConversionView {
            csv: self.csv@,
            diagnostics: diagnostics_view(self.diagnostics@),
            failure: self.failure,
        }
    }
}

/// The row of a contact, or the required property that it could not give.
/// The e-mail address is taken out first, then the full name; the attributes
/// are what is left after both.
pub open spec fn assembled(properties: Seq<PropertyView>, excluded: Set<Seq<char>>) -> Result<
    OutputRecordView,
    Missing,
> {
    let without_email = after_extract(properties, EMAIL@);
    let without_both = after_extract(without_email, FULL_NAME@);
    match extracted(properties, EMAIL@) {
        ExtractionView::Value(email) => match extracted(without_email, FULL_NAME@) {
            ExtractionView::Value(name) => Ok(
                OutputRecordView { email, name, attributes: serialized(without_both, excluded) },
            ),
            ExtractionView::NoValue => Err(
                Missing { property: Required::FullName, absence: Absence::NoValue },
            ),
            ExtractionView::NotFound => Err(
                Missing { property: Required::FullName, absence: Absence::NotFound },
            ),
        },
        ExtractionView::NoValue => Err(
            Missing { property: Required::Email, absence: Absence::NoValue },
        ),
        ExtractionView::NotFound => Err(
            Missing { property: Required::Email, absence: Absence::NotFound },
        ),
    }
}

/// A contact with an `EMAIL` and an `FN` property loses exactly the first of
/// each when its row is made: the properties that are serialized hold
/// neither of the two entries that were taken out, and all the others in
/// their old order.
pub proof fn lemma_email_and_name_taken_out(properties: Seq<PropertyView>)
    requires
        has_named(properties, EMAIL@),
        has_named(properties, FULL_NAME@),
    ensures
        ({
            let e = first_named(properties, EMAIL@)->0;
            let n = first_named(properties, FULL_NAME@)->0;
            let rest = after_extract(after_extract(properties, EMAIL@), FULL_NAME@);
            &&& is_first_named(properties, EMAIL@, e)
            &&& is_first_named(properties, FULL_NAME@, n)
            &&& e != n
            &&& rest.len() == properties.len() - 2
            &&& rest == if e < n {
                properties.remove(n).remove(e)
            } else {
                properties.remove(e).remove(n)
            }
        }),
{
    reveal_strlit("EMAIL");
    reveal_strlit("FN");
    assert(EMAIL@.len() != FULL_NAME@.len());
    lemma_extract_two(properties, EMAIL@, FULL_NAME@);
}

/// The run before anything was read.
pub open spec fn start() -> RunView {
    RunView { records: Seq::empty(), diagnostics: Seq::empty(), halted: None }
}

/// The run after one more block. A run that has halted stays as it is.
pub open spec fn step(run: RunView, item: ParsedView, config: ConfigView) -> RunView {
    if run.halted is Some {
        run
    } else {
        match item {
            ParsedView::Malformed(message) => RunView {
                diagnostics: run.diagnostics.push(DiagnosticView::Malformed(message)),
                ..run
            },
            ParsedView::Contact(properties) => match assembled(properties, config.excluded) {
                Ok(record) => RunView { records: run.records.push(record), ..run },
                Err(missing) => match config.on_missing_required {
                    MissingPolicy::Skip => RunView {
                        diagnostics: run.diagnostics.push(DiagnosticView::Skipped(missing)),
                        ..run
                    },
                    MissingPolicy::Abort => RunView { halted: Some(missing), ..run },
                },
            },
        }
    }
}

/// The run over a list of blocks, taken in order.
pub open spec fn processed(items: Seq<ParsedView>, config: ConfigView) -> RunView
    decreases items.len(),
{
    if items.len() == 0 {
        start()
    } else {
        step(processed(items.drop_last(), config), items.last(), config)
    }
}

/// Under the skipping policy no block ends the run, and every block leaves
/// exactly one trace: a contact its row or a diagnostic, a malformed block a
/// diagnostic.
pub proof fn lemma_skip_runs_through(items: Seq<ParsedView>, config: ConfigView)
    requires
        config.on_missing_required == MissingPolicy::Skip,
    ensures
        processed(items, config).halted is None,
        processed(items, config).records.len() + processed(items, config).diagnostics.len()
            == items.len(),
    decreases items.len(),
{
    if items.len() > 0 {
        lemma_skip_runs_through(items.drop_last(), config);
    }
}

/// A run goes through the blocks one by one: the run over a list and one
/// more block is the run over the list, one step further.
pub proof fn lemma_processed_push(items: Seq<ParsedView>, item: ParsedView, config: ConfigView)
    ensures
        processed(items.push(item), config) == step(processed(items, config), item, config),
{
    assert(items.push(item).drop_last() =~= items);
}

/// A malformed block never ends a run and never makes a row: a run that has
/// not halted reports it and is otherwise as before, under either policy.
pub proof fn lemma_malformed_is_reported(run: RunView, message: Seq<char>, config: ConfigView)
    requires
        run.halted is None,
    ensures
        step(run, ParsedView::Malformed(message), config) == (RunView {
            diagnostics: run.diagnostics.push(DiagnosticView::Malformed(message)),
            ..run
        }),
{
}

/// Under the skipping policy a contact that lacks a required property makes
/// no row and does not end the run: it is reported, and the run is otherwise
/// as before.
pub proof fn lemma_missing_is_skipped(
    run: RunView,
    properties: Seq<PropertyView>,
    config: ConfigView,
)
    requires
        run.halted is None,
        config.on_missing_required == MissingPolicy::Skip,
        assembled(properties, config.excluded) is Err,
    ensures
        step(run, ParsedView::Contact(properties), config) == (RunView {
            diagnostics: run.diagnostics.push(
                DiagnosticView::Skipped(assembled(properties, config.excluded)->Err_0),
            ),
            ..run
        }),
{
}

/// A contact that holds an `EMAIL` and an `FN` property with values and
/// nothing else gets the attributes `{}`.
pub proof fn lemma_nothing_else_left(properties: Seq<PropertyView>, excluded: Set<Seq<char>>)
    requires
        properties.len() == 2,
        extracted(properties, EMAIL@) is Value,
        extracted(after_extract(properties, EMAIL@), FULL_NAME@) is Value,
    ensures
        assembled(properties, excluded) is Ok,
        assembled(properties, excluded)->Ok_0.attributes == seq!['{', '}'],
{
    let without_email = after_extract(properties, EMAIL@);
    let without_both = after_extract(without_email, FULL_NAME@);
    lemma_first_named(properties, EMAIL@);
    lemma_first_named(without_email, FULL_NAME@);
    lemma_excluded_serialize_empty(without_both, excluded);
}

/// What a run converts to: the table of its rows, its diagnostics, and the
/// missing property that ended it.
pub open spec fn completed(run: RunView) -> ConversionView {
    ConversionView {
        csv: table(run.records),
        diagnostics: run.diagnostics,
        failure: match run.halted {
            Some(missing) => Some(ConvertError::MissingRequired(missing)),
            None => None,
        },
    }
}

/// What a run comes to where its table could not be written: no table.
pub open spec fn unwritten(run: RunView) -> ConversionView {
    ConversionView {
        csv: Seq::empty(),
        diagnostics: run.diagnostics,
        failure: Some(ConvertError::OutputWrite),
    }
}

/// Makes the row of a contact: takes out its e-mail address and its full
/// name, and serializes what is left. Fails with the first of the two that
/// the contact does not have, or has without a value.
pub fn assemble(contact: Contact, exclusions: &ExclusionSet) -> (row: Result<OutputRecord, Missing>)
    ensures
        match assembled(contact@, exclusions@) {
            Ok(record) => row matches Ok(made) && made@ == record,
            Err(missing) => row == Err::<OutputRecord, Missing>(missing),
        },
{
    let mut contact = contact;
    let email = match contact.extract(EMAIL) {
        Extraction::Value(email) => email,
        Extraction::NoValue => {
            return Err(Missing { property: Required::Email, absence: Absence::NoValue });
        },
        Extraction::NotFound => {
            return Err(Missing { property: Required::Email, absence: Absence::NotFound });
        },
    };
    let name = match contact.extract(FULL_NAME) {
        Extraction::Value(name) => name,
        Extraction::NoValue => {
            return Err(Missing { property: Required::FullName, absence: Absence::NoValue });
        },
        Extraction::NotFound => {
            return Err(Missing { property: Required::FullName, absence: Absence::NotFound });
        },
    };
    let attributes = serialize(contact.properties.as_slice(), exclusions);
    Ok(OutputRecord { email, name, attributes })
}

/// Runs the pipeline over the blocks that the vCard reader found, in order:
/// a contact becomes a row, a contact that lacks a required property is
/// skipped or ends the run, a malformed block is reported and skipped.
pub fn process(items: Vec<Parsed>, config: &Config) -> (run: Run)
    ensures
        run@ == processed(parsed_view(items@), config@),
{
    let ghost all = parsed_view(items@);
    let mut run = Run { records: Vec::new(), diagnostics: Vec::new(), halted: None };
    assert(run@.records =~= Seq::empty() && run@.diagnostics =~= Seq::empty());
    for item in it: items
        invariant
            all == parsed_view(it.seq()),
            run@ == processed(all.take(it.index()), config@),
    {
        let ghost before = run@;
        proof {
            assert(all.take(it.index() + 1) =~= all.take(it.index()).push(item@));
            lemma_processed_push(all.take(it.index()), item@, config@);
        }
        if run.halted.is_none() {
            match item {
                Parsed::Malformed(message) => {
                    run.diagnostics.push(Diagnostic::Malformed(message));
                    assert(run@.diagnostics =~= before.diagnostics.push(
                        DiagnosticView::Malformed(message@),
                    ));
                },
                Parsed::Contact(contact) => match assemble(contact, &config.exclusions) {
                    Ok(record) => {
                        run.records.push(record);
                        assert(run@.records =~= before.records.push(record@));
                    },
                    Err(missing) => match config.on_missing_required {
                        MissingPolicy::Skip => {
                            run.diagnostics.push(Diagnostic::Skipped(missing));
                            assert(run@.diagnostics =~= before.diagnostics.push(
                                DiagnosticView::Skipped(missing),
                            ));
                        },
                        MissingPolicy::Abort => {
                            run.halted = Some(missing);
                        },
                    },
                },
            }
        }
    }
    assert(all.take(all.len() as int) =~= all);
    run
}

/// Puts a run and the table that was written for it together.
pub fn conclude(run: Run, written: Result<String, WriteError>) -> (conversion: Conversion)
    ensures
        conversion@ == match written {
            Ok(csv) => ConversionView {
                csv: csv@,
                diagnostics: run@.diagnostics,
                failure: completed(run@).failure,
            },
            Err(_) => unwritten(run@),
        },
{
    match written {
        Ok(csv) => Conversion {
            csv,
            diagnostics: run.diagnostics,
            failure: match run.halted {
                Some(missing) => Some(ConvertError::MissingRequired(missing)),
                None => None,
            },
        },
        Err(_) => Conversion {
            csv: String::new(),
            diagnostics: run.diagnostics,
            failure: Some(ConvertError::OutputWrite),
        },
    }
}

/// Converts the blocks that the vCard reader found into the table and the
/// diagnostics: the result is that of the run over the blocks.
pub fn convert_parsed(items: Vec<Parsed>, config: &Config) -> (conversion: Conversion)
    ensures
        conversion@ == completed(processed(parsed_view(items@), config@)),
{
    let run = process(items, config);
    let written = write_table(run.records.as_slice());
    conclude(run, written)
}

/// Converts the text of an address book: reads its vCards, and converts what
/// was read. The result is that of the run over the blocks that the vCard
/// reader yields for `text`.
pub fn convert(text: &str, config: &Config) -> (conversion: Conversion)
    ensures
        conversion@ == completed(processed(vcard_blocks(text@), config@)),
{
    let items = read_vcards(text);
    convert_parsed(items, config)
}

/// Converts the bytes of an address-book file: decodes them, each byte as one
/// character, and converts the text.
pub fn convert_bytes(bytes: &[u8], config: &Config) -> (conversion: Conversion)
    ensures
        conversion@ == completed(processed(vcard_blocks(decoded(bytes@)), config@)),
{
    let text = decode_single_byte(bytes);
    convert(text.as_str(), config)
}

} // verus!
