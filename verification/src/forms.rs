//! Forms: a pending form becomes a question card, and the labels that the
//! user picks become the form's answer.

use vstd::prelude::*;

use crate::cards;
use crate::document;
use crate::json;
use crate::json::{Json, JsonV};
use crate::text;
use crate::wire;
use crate::wire::{OptionV, PromptV, WirePrompt, WireQuestionOption};

verus! {

broadcast use json::group_json;

// ---------------------------------------------------------------------------
// Choices
// ---------------------------------------------------------------------------

/// One thing that the user can pick: a label, and the field and value that it
/// stands for.
#[verifier::ext_equal]
pub struct ChoiceV {
    pub label: Seq<char>,
    pub description: Option<Seq<char>>,
    pub key: Seq<char>,
    pub value: JsonV,
}

/// The choices of a list of options: those that have a label and a value.
pub open spec fn listed_choices(key: Seq<char>, options: Seq<JsonV>) -> Seq<ChoiceV>
    decreases options.len(),
{
    if options.len() == 0 {
        Seq::empty()
    } else {
        let init = listed_choices(key, options.drop_last());
        let opt = options.last();
        match (opt.str_at("label"@), opt.str_at("value"@)) {
            (Some(label), Some(value)) => init.push(
                ChoiceV {
                    label,
                    description: opt.str_at("description"@),
                    key,
                    value: JsonV::Str(value),
                },
            ),
            _ => init,
        }
    }
}

/// The label of a boolean's choice. A form's only field needs no title.
pub open spec fn boolean_label(title: Seq<char>, lone: bool, word: Seq<char>) -> Seq<char> {
    if lone {
        word
    } else {
        title + ": "@ + word
    }
}

/// The two choices of a boolean.
pub open spec fn boolean_choices(key: Seq<char>, title: Seq<char>, lone: bool) -> Seq<ChoiceV> {
    seq![
        ChoiceV {
            label: boolean_label(title, lone, "Yes"@),
            description: None,
            key,
            value: JsonV::Bool(true),
        },
        ChoiceV {
            label: boolean_label(title, lone, "No"@),
            description: None,
            key,
            value: JsonV::Bool(false),
        },
    ]
}

/// The choices that a field offers; a field without a key offers none.
pub open spec fn field_choices(field: JsonV, lone: bool) -> Seq<ChoiceV> {
    let key = cards::text_or(field.str_at("key"@), Seq::empty());
    let kind = field.str_at("type"@);
    if key.len() == 0 {
        Seq::empty()
    } else if kind == Some("multiselect"@) || kind == Some("string"@) {
        listed_choices(key, field.items_at("options"@))
    } else if kind == Some("boolean"@) {
        boolean_choices(key, cards::text_or(field.str_at("title"@), key), lone)
    } else {
        Seq::empty()
    }
}

/// The choices of a number of fields, one field after the other.
pub open spec fn choices_of(fields: Seq<JsonV>, lone: bool) -> Seq<ChoiceV>
    decreases fields.len(),
{
    if fields.len() == 0 {
        Seq::empty()
    } else {
        choices_of(fields.drop_last(), lone) + field_choices(fields.last(), lone)
    }
}

/// The choices of a form.
pub open spec fn form_choices(form: JsonV) -> Seq<ChoiceV> {
    let fields = form.items_at("fields"@);
    choices_of(fields, fields.len() == 1)
}

/// A field that takes several values.
pub open spec fn is_multi_field(field: JsonV) -> bool {
    cards::text_or(field.str_at("key"@), Seq::empty()).len() > 0 && field.str_at("type"@) == Some(
        "multiselect"@,
    )
}

/// The form has a field that takes several values.
pub open spec fn form_multi(form: JsonV) -> bool {
    exists|i: int|
        0 <= i < form.items_at("fields"@).len() && is_multi_field(
            #[trigger] form.items_at("fields"@)[i],
        )
}

/// A choice as an option of the card.
pub open spec fn shown_option(choice: ChoiceV) -> OptionV {
    OptionV { label: choice.label, description: choice.description }
}

/// The choices as options of the card.
pub open spec fn shown_options(choices: Seq<ChoiceV>) -> Seq<OptionV> {
    Seq::new(choices.len(), |i: int| shown_option(choices[i]))
}

/// The choice that a label stands for: the last one with it.
pub open spec fn resolve(choices: Seq<ChoiceV>, label: Seq<char>) -> Option<ChoiceV>
    decreases choices.len(),
{
    if choices.len() == 0 {
        None
    } else if choices.last().label == label {
        Some(choices.last())
    } else {
        resolve(choices.drop_last(), label)
    }
}

/// One thing that the user can pick.
#[derive(Debug)]
pub struct FormChoice {
    pub label: String,
    pub description: Option<String>,
    pub key: String,
    pub value: Json,
}

impl View for FormChoice {
    type V = ChoiceV;

    open spec fn view(&self) -> ChoiceV {
        ChoiceV {
            label: self.label@,
            description: text::opt_text(self.description),
            key: self.key@,
            value: self.value@,
        }
    }
}

/// The models of a sequence of choices.
pub open spec fn choice_models(v: Seq<FormChoice>) -> Seq<ChoiceV> {
    Seq::new(v.len(), |i: int| v[i]@)
}

fn push_listed(out: &mut Vec<FormChoice>, key: &str, options: &Vec<Json>)
    ensures
        choice_models(final(out)@) == choice_models(old(out)@) + listed_choices(
            key@,
            json::models(options@),
        ),
{
    let ghost before = choice_models(out@);
    let ghost all = json::models(options@);
    let mut i: usize = 0;
    assert(all.take(0) =~= Seq::empty());
    assert(before + listed_choices(key@, all.take(0)) =~= before);
    while i < options.len()
        invariant
            i <= options@.len(),
            all == json::models(options@),
            choice_models(out@) == before + listed_choices(key@, all.take(i as int)),
        decreases options@.len() - i,
    {
        let opt: &Json = &options[i];
        assert(all.take(i + 1).drop_last() =~= all.take(i as int));
        assert(all.take(i + 1).last() == opt@);
        match (opt.text_at("label"), opt.str_at("value")) {
            (Some(label), Some(value)) => {
                let ghost sofar = choice_models(out@);
                let choice: FormChoice = FormChoice {
                    label,
                    description: opt.text_at("description"),
                    key: key.to_owned(),
                    value: document::json_str(value),
                };
                out.push(choice);
                assert(choice_models(out@) =~= sofar.push(choice@));
                assert(choice_models(out@) =~= before + listed_choices(key@, all.take(i + 1)));
            },
            _ => {},
        }
        i += 1;
    }
    assert(all.take(i as int) =~= all);
}

fn label_for(title: &str, lone: bool, word: &str) -> (r: String)
    ensures
        r@ == boolean_label(title@, lone, word@),
{
    if lone {
        word.to_owned()
    } else {
        text::concat3(title, ": ", word)
    }
}

fn push_field(out: &mut Vec<FormChoice>, field: &Json, lone: bool)
    ensures
        choice_models(final(out)@) == choice_models(old(out)@) + field_choices(field@, lone),
{
    let ghost before = choice_models(out@);
    assert(before + Seq::<ChoiceV>::empty() =~= before);
    let key: &str = match field.str_at("key") {
        Some(key) => key,
        None => {
            return ;
        },
    };
    if key.is_empty() {
        return ;
    }
    let kind: &str = match field.str_at("type") {
        Some(kind) => kind,
        None => {
            return ;
        },
    };
    if text::str_eq(kind, "multiselect") || text::str_eq(kind, "string") {
        match field.array_at("options") {
            Some(options) => {
                push_listed(out, key, options);
            },
            None => {},
        }
    } else if text::str_eq(kind, "boolean") {
        let title: &str = match field.str_at("title") {
            Some(title) => title,
            None => key,
        };
        let yes: FormChoice = FormChoice {
            label: label_for(title, lone, "Yes"),
            description: None,
            key: key.to_owned(),
            value: Json::Bool(true),
        };
        let no: FormChoice = FormChoice {
            label: label_for(title, lone, "No"),
            description: None,
            key: key.to_owned(),
            value: Json::Bool(false),
        };
        out.push(yes);
        out.push(no);
        assert(choice_models(out@) =~= before + seq![yes@, no@]);
        assert(seq![yes@, no@] =~= boolean_choices(key@, title@, lone));
    }
}

/// The choices of a form.
fn read_choices(form: &Json) -> (r: Vec<FormChoice>)
    ensures
        choice_models(r@) == form_choices(form@),
{
    let mut out: Vec<FormChoice> = Vec::new();
    assert(choice_models(out@) =~= Seq::empty());
    match form.array_at("fields") {
        Some(fields) => {
            let ghost all = json::models(fields@);
            let lone: bool = fields.len() == 1;
            let mut i: usize = 0;
            assert(all.take(0) =~= Seq::empty());
            while i < fields.len()
                invariant
                    i <= fields@.len(),
                    all == json::models(fields@),
                    choice_models(out@) == choices_of(all.take(i as int), lone),
                decreases fields@.len() - i,
            {
                assert(all.take(i + 1).drop_last() =~= all.take(i as int));
                assert(all.take(i + 1).last() == fields@[i as int]@);
                push_field(&mut out, &fields[i], lone);
                i += 1;
            }
            assert(all.take(i as int) =~= all);
        },
        None => {},
    }
    out
}

fn has_multi(form: &Json) -> (r: bool)
    ensures
        r == form_multi(form@),
{
    match form.array_at("fields") {
        Some(fields) => {
            let ghost all = json::models(fields@);
            let mut i: usize = 0;
            while i < fields.len()
                invariant
                    i <= fields@.len(),
                    all == json::models(fields@),
                    form@.items_at("fields"@) == all,
                    forall|j: int| 0 <= j < i ==> !is_multi_field(#[trigger] all[j]),
                decreases fields@.len() - i,
            {
                let field: &Json = &fields[i];
                let keyed: bool = match field.str_at("key") {
                    Some(key) => !key.is_empty(),
                    None => false,
                };
                assert(all[i as int] == field@);
                if keyed && text::opt_is(field.str_at("type"), "multiselect") {
                    assert(is_multi_field(form@.items_at("fields"@)[i as int]));
                    return true;
                }
                i += 1;
            }
            false
        },
        None => false,
    }
}

/// What a form offers: the options of its card, what each label stands for,
/// and whether several can be picked.
pub fn v2_form_options(form: &Json) -> (r: (Vec<WireQuestionOption>, Vec<FormChoice>, bool))
    ensures
        wire::option_models(r.0@) == shown_options(form_choices(form@)),
        choice_models(r.1@) == form_choices(form@),
        r.2 == form_multi(form@),
{
    let choices: Vec<FormChoice> = read_choices(form);
    let ghost all = choice_models(choices@);
    let mut options: Vec<WireQuestionOption> = Vec::new();
    let mut i: usize = 0;
    while i < choices.len()
        invariant
            i <= choices@.len(),
            all == choice_models(choices@),
            wire::option_models(options@) == shown_options(all).take(i as int),
        decreases choices@.len() - i,
    {
        let ghost before = wire::option_models(options@);
        let option: WireQuestionOption = WireQuestionOption {
            label: choices[i].label.clone(),
            description: choices[i].description.clone(),
        };
        assert(option@ =~= shown_option(all[i as int]));
        options.push(option);
        assert(wire::option_models(options@) =~= before.push(option@));
        i += 1;
        assert(wire::option_models(options@) =~= shown_options(all).take(i as int));
    }
    assert(shown_options(all).take(i as int) =~= shown_options(all));
    (options, choices, has_multi(form))
}

// ---------------------------------------------------------------------------
// The card
// ---------------------------------------------------------------------------

/// What the card tells of a field.
pub open spec fn told_field(field: JsonV) -> JsonV {
    json::object2(
        "title"@,
        field.member("title"@),
        "description"@,
        field.member("description"@),
    )
}

/// The card for a form: it needs the form's id.
pub open spec fn form_prompt(form: JsonV) -> Option<PromptV> {
    match form.str_at("id"@) {
        Some(id) => Some(
            PromptV {
                kind: "question"@,
                question: form.str_at("title"@),
                options: shown_options(form_choices(form)),
                multi_select: form_multi(form),
                tool_input: Some(
                    json::object1(
                        "fields"@,
                        JsonV::Array(
                            Seq::new(
                                form.items_at("fields"@).len(),
                                |i: int| told_field(form.items_at("fields"@)[i]),
                            ),
                        ),
                    ),
                ),
                native_id: Some(id),
                ..wire::blank_prompt()
            },
        ),
        None => None,
    }
}

fn copy_member(doc: &Json, key: &str) -> (r: Json)
    ensures
        r@ == doc@.member(key@),
{
    match doc.get(key) {
        Some(v) => v.copy(),
        None => Json::Null,
    }
}

fn told_fields(form: &Json) -> (r: Vec<Json>)
    ensures
        json::models(r@) == Seq::new(
            form@.items_at("fields"@).len(),
            |i: int| told_field(form@.items_at("fields"@)[i]),
        ),
{
    let mut out: Vec<Json> = Vec::new();
    let ghost items = form@.items_at("fields"@);
    let ghost told = Seq::new(items.len(), |i: int| told_field(items[i]));
    match form.array_at("fields") {
        Some(fields) => {
            let mut i: usize = 0;
            while i < fields.len()
                invariant
                    i <= fields@.len(),
                    items == json::models(fields@),
                    told == Seq::new(items.len(), |i: int| told_field(items[i])),
                    json::models(out@) == told.take(i as int),
                decreases fields@.len() - i,
            {
                let field: &Json = &fields[i];
                assert(items[i as int] == field@);
                let ghost before = json::models(out@);
                let one: Json = document::make_object2(
                    "title",
                    copy_member(field, "title"),
                    "description",
                    copy_member(field, "description"),
                );
                out.push(one);
                assert(json::models(out@) =~= before.push(one@));
                i += 1;
                assert(json::models(out@) =~= told.take(i as int));
            }
            assert(told.take(i as int) =~= told);
        },
        None => {
            assert(json::models(out@) =~= told);
        },
    }
    assert(told =~= Seq::new(
        form@.items_at("fields"@).len(),
        |i: int| told_field(form@.items_at("fields"@)[i]),
    ));
    out
}

/// The card for a pending form.
pub fn v2_form_card(form: &Json) -> (r: Option<WirePrompt>)
    ensures
        wire::opt_prompt(r) == form_prompt(form@),
{
    match form.text_at("id") {
        Some(id) => {
            let offer: (Vec<WireQuestionOption>, Vec<FormChoice>, bool) = v2_form_options(form);
            let fields: Vec<Json> = told_fields(form);
            let mut card: WirePrompt = WirePrompt::default();
            card.kind = "question".to_owned();
            card.question = form.text_at("title");
            card.options = offer.0;
            card.multi_select = offer.2;
            card.tool_input = Some(document::make_object1("fields", Json::Array(fields)));
            card.native_id = Some(id);
            Some(card)
        },
        None => None,
    }
}

// ---------------------------------------------------------------------------
// The answer
// ---------------------------------------------------------------------------

/// The field under this key takes several values.
pub open spec fn takes_many(form: JsonV, key: Seq<char>) -> bool {
    exists|i: int|
        0 <= i < form.items_at("fields"@).len() && {
            let field = #[trigger] form.items_at("fields"@)[i];
            field.str_at("key"@) == Some(key) && field.str_at("type"@) == Some("multiselect"@)
        }
}

/// The answer so far with one more choice: a field that takes several values
/// gets another item, any other field its value.
pub open spec fn with_choice(
    form: JsonV,
    answer: Seq<(Seq<char>, JsonV)>,
    choice: ChoiceV,
) -> Option<Seq<(Seq<char>, JsonV)>> {
    if takes_many(form, choice.key) {
        match json::find(answer, choice.key) {
            None => Some(json::bind(answer, choice.key, JsonV::Array(seq![choice.value]))),
            Some(JsonV::Array(items)) => Some(
                json::bind(answer, choice.key, JsonV::Array(items.push(choice.value))),
            ),
            Some(_) => None,
        }
    } else {
        Some(json::bind(answer, choice.key, choice.value))
    }
}

/// The answer that the labels amount to, taken in order; none if a label does
/// not stand for a choice of this form.
pub open spec fn answer_entries(form: JsonV, labels: Seq<Seq<char>>) -> Option<
    Seq<(Seq<char>, JsonV)>,
>
    decreases labels.len(),
{
    if labels.len() == 0 {
        Some(Seq::empty())
    } else {
        match (
            answer_entries(form, labels.drop_last()),
            resolve(form_choices(form), labels.last()),
        ) {
            (Some(answer), Some(choice)) => with_choice(form, answer, choice),
            _ => None,
        }
    }
}

fn many(form: &Json, key: &str) -> (r: bool)
    ensures
        r == takes_many(form@, key@),
{
    match form.array_at("fields") {
        Some(fields) => {
            let ghost all = json::models(fields@);
            let mut i: usize = 0;
            while i < fields.len()
                invariant
                    i <= fields@.len(),
                    all == json::models(fields@),
                    form@.items_at("fields"@) == all,
                    forall|j: int|
                        0 <= j < i ==> !((#[trigger] all[j]).str_at("key"@) == Some(key@)
                            && all[j].str_at("type"@) == Some("multiselect"@)),
                decreases fields@.len() - i,
            {
                let field: &Json = &fields[i];
                assert(all[i as int] == field@);
                if text::opt_is(field.str_at("key"), key) && text::opt_is(
                    field.str_at("type"),
                    "multiselect",
                ) {
                    assert(form@.items_at("fields"@)[i as int] == field@);
                    return true;
                }
                i += 1;
            }
            false
        },
        None => false,
    }
}

fn find_choice<'a>(choices: &'a Vec<FormChoice>, label: &str) -> (r: Option<&'a FormChoice>)
    ensures
        match r {
            Some(c) => resolve(choice_models(choices@), label@) == Some(c@),
            None => resolve(choice_models(choices@), label@) is None,
        },
{
    let ghost all = choice_models(choices@);
    let mut i: usize = choices.len();
    assert(all.take(i as int) =~= all);
    while i > 0
        invariant
            i <= choices@.len(),
            all == choice_models(choices@),
            resolve(all, label@) == resolve(all.take(i as int), label@),
        decreases i,
    {
        assert(all.take(i as int).last() == choices@[i - 1]@);
        if text::str_eq(choices[i - 1].label.as_str(), label) {
            return Some(&choices[i - 1]);
        }
        assert(all.take(i as int).drop_last() =~= all.take(i - 1));
        i -= 1;
    }
    None
}

fn add_choice(form: &Json, answer: &mut Vec<(String, Json)>, choice: &FormChoice) -> (ok: bool)
    ensures
        match with_choice(form@, json::entry_models(old(answer)@), choice@) {
            Some(after) => ok && json::entry_models(final(answer)@) == after,
            None => !ok,
        },
{
    if many(form, choice.key.as_str()) {
        let mut items: Vec<Json> = Vec::new();
        match document::find_in(answer, choice.key.as_str()) {
            None => {
                let item: Json = choice.value.copy();
                items.push(item);
                assert(json::models(items@) =~= seq![item@]);
            },
            Some(Json::Array(held)) => {
                items = document::copy_items(held);
                let item: Json = choice.value.copy();
                let ghost before = json::models(items@);
                items.push(item);
                assert(json::models(items@) =~= before.push(item@));
            },
            Some(_) => {
                return false;
            },
        }
        document::bind_in(answer, choice.key.as_str(), Json::Array(items));
    } else {
        document::bind_in(answer, choice.key.as_str(), choice.value.copy());
    }
    true
}

/// The answer to a form: the picked labels as field values. There is none if a
/// label no longer stands for a choice, because the form has changed.
pub fn v2_form_answer(form: &Json, answers: &Vec<String>) -> (r: Option<Json>)
    ensures
        json::opt_model(r) == match answer_entries(form@, text::texts(answers@)) {
            Some(entries) => Some(JsonV::Object(entries)),
            None => None,
        },
{
    let choices: Vec<FormChoice> = read_choices(form);
    let ghost labels = text::texts(answers@);
    let mut out: Vec<(String, Json)> = Vec::new();
    let mut i: usize = 0;
    assert(labels.take(0) =~= Seq::empty());
    assert(json::entry_models(out@) =~= Seq::empty());
    while i < answers.len()
        invariant
            i <= answers@.len(),
            labels == text::texts(answers@),
            choice_models(choices@) == form_choices(form@),
            answer_entries(form@, labels.take(i as int)) == Some(json::entry_models(out@)),
        decreases answers@.len() - i,
    {
        assert(labels.take(i + 1).drop_last() =~= labels.take(i as int));
        assert(labels.take(i + 1).last() == answers@[i as int]@);
        match find_choice(&choices, answers[i].as_str()) {
            Some(choice) => {
                let ok: bool = add_choice(form, &mut out, choice);
                if !ok {
                    proof {
                        lemma_no_answer(form@, labels, i + 1);
                    }
                    return None;
                }
            },
            None => {
                proof {
                    lemma_no_answer(form@, labels, i + 1);
                }
                return None;
            },
        }
        i += 1;
    }
    assert(labels.take(i as int) =~= labels);
    Some(Json::Object(out))
}

/// What cannot be answered so far cannot be answered at all.
proof fn lemma_no_answer(form: JsonV, labels: Seq<Seq<char>>, k: int)
    requires
        0 <= k <= labels.len(),
        answer_entries(form, labels.take(k)) is None,
    ensures
        answer_entries(form, labels) is None,
    decreases labels.len(),
{
    if k == labels.len() {
        assert(labels.take(k) =~= labels);
    } else {
        assert(labels.drop_last().take(k) =~= labels.take(k));
        lemma_no_answer(form, labels.drop_last(), k);
    }
}

// ---------------------------------------------------------------------------
// Laws
// ---------------------------------------------------------------------------

/// The label stands on the form's card.
pub open spec fn on_card(form: JsonV, label: Seq<char>) -> bool {
    exists|i: int|
        0 <= i < form_choices(form).len() && (#[trigger] form_choices(form)[i]).label == label
}

/// The values that the labels pick for one field, in order.
pub open spec fn picked(form: JsonV, labels: Seq<Seq<char>>, key: Seq<char>) -> Seq<JsonV>
    decreases labels.len(),
{
    if labels.len() == 0 {
        Seq::empty()
    } else {
        let init = picked(form, labels.drop_last(), key);
        match resolve(form_choices(form), labels.last()) {
            Some(choice) => if choice.key == key {
                init.push(choice.value)
            } else {
                init
            },
            None => init,
        }
    }
}

/// What the answer holds for a field: every picked value in a field that takes
/// several, the last one in any other, nothing if none was picked.
pub open spec fn field_answer(form: JsonV, labels: Seq<Seq<char>>, key: Seq<char>) -> Option<
    JsonV,
> {
    let values = picked(form, labels, key);
    if values.len() == 0 {
        None
    } else if takes_many(form, key) {
        Some(JsonV::Array(values))
    } else {
        Some(values.last())
    }
}

/// A label resolves exactly if it is one of the choices', to a choice that has
/// this label.
pub proof fn resolving_finds_the_label(choices: Seq<ChoiceV>, label: Seq<char>)
    ensures
        match resolve(choices, label) {
            Some(choice) => choice.label == label && choices.contains(choice),
            None => forall|i: int| 0 <= i < choices.len() ==> (#[trigger] choices[i]).label != label,
        },
    decreases choices.len(),
{
    if choices.len() > 0 {
        let init = choices.drop_last();
        if choices.last().label == label {
            assert(choices[choices.len() - 1] == choices.last());
        } else {
            resolving_finds_the_label(init, label);
            match resolve(init, label) {
                Some(choice) => {
                    let i = choose|i: int| 0 <= i < init.len() && init[i] == choice;
                    assert(choices[i] == choice);
                },
                None => {
                    assert forall|i: int| 0 <= i < choices.len() implies (
                    #[trigger] choices[i]).label != label by {
                        if i < init.len() {
                            assert(choices[i] == init[i]);
                        }
                    }
                },
            }
        }
    }
}

/// Every label on the card can be answered with, alone or together with
/// others, and the answer holds for each field what was picked for it.
pub proof fn card_labels_answer_the_form(form: JsonV, labels: Seq<Seq<char>>, key: Seq<char>)
    requires
        forall|i: int| 0 <= i < labels.len() ==> on_card(form, #[trigger] labels[i]),
    ensures
        answer_entries(form, labels) matches Some(entries) && json::find(entries, key)
            == field_answer(form, labels, key),
    decreases labels.len(),
{
    if labels.len() > 0 {
        let init = labels.drop_last();
        let label = labels.last();
        assert forall|i: int| 0 <= i < init.len() implies on_card(form, #[trigger] init[i]) by {
            assert(init[i] == labels[i]);
        }
        assert(on_card(form, labels[labels.len() - 1]));
        resolving_finds_the_label(form_choices(form), label);
        let choice = resolve(form_choices(form), label)->0;
        card_labels_answer_the_form(form, init, key);
        card_labels_answer_the_form(form, init, choice.key);
        let before = answer_entries(form, init)->0;
        let old_values = picked(form, init, choice.key);
        if takes_many(form, choice.key) {
            let items = if old_values.len() == 0 {
                seq![choice.value]
            } else {
                old_values.push(choice.value)
            };
            assert(items =~= old_values.push(choice.value));
            json::find_after_bind(before, choice.key, JsonV::Array(items), key);
        } else {
            json::find_after_bind(before, choice.key, choice.value, key);
        }
    }
}

/// A label that is not on the card, such as one of a form that has changed
/// since, makes the whole answer fail: nothing is answered by mistake.
pub proof fn stale_labels_fail(form: JsonV, labels: Seq<Seq<char>>)
    ensures
        answer_entries(form, labels) is Some <==> forall|i: int|
            0 <= i < labels.len() ==> on_card(form, #[trigger] labels[i]),
    decreases labels.len(),
{
    if forall|i: int| 0 <= i < labels.len() ==> on_card(form, #[trigger] labels[i]) {
        card_labels_answer_the_form(form, labels, Seq::empty());
    } else {
        let i = choose|i: int| 0 <= i < labels.len() && !on_card(form, #[trigger] labels[i]);
        let init = labels.drop_last();
        if i == labels.len() - 1 {
            resolving_finds_the_label(form_choices(form), labels.last());
            if resolve(form_choices(form), labels.last()) is Some {
                let c = resolve(form_choices(form), labels.last())->0;
                let k = choose|k: int|
                    0 <= k < form_choices(form).len() && form_choices(form)[k] == c;
                assert(form_choices(form)[k].label == labels.last());
                assert(on_card(form, labels[i]));
            }
        } else {
            assert(init[i] == labels[i]);
            stale_labels_fail(form, init);
        }
    }
}

/// The options that the card shows are the labels that can be answered with,
/// one for one.
pub proof fn card_shows_every_choice(form: JsonV, label: Seq<char>)
    ensures
        form_prompt(form) matches Some(card) ==> (on_card(form, label) <==> exists|i: int|
            0 <= i < card.options.len() && (#[trigger] card.options[i]).label == label),
{
    if form_prompt(form) is Some {
        let card = form_prompt(form)->0;
        if on_card(form, label) {
            let i = choose|i: int|
                0 <= i < form_choices(form).len() && (#[trigger] form_choices(form)[i]).label
                    == label;
            assert(card.options[i].label == label);
        }
        if exists|i: int| 0 <= i < card.options.len() && (#[trigger] card.options[i]).label == label {
            let i = choose|i: int|
                0 <= i < card.options.len() && (#[trigger] card.options[i]).label == label;
            assert(form_choices(form)[i].label == label);
        }
    }
}

proof fn lemma_types()
    ensures
        "boolean"@ != "string"@,
        "boolean"@ != "multiselect"@,
        "string"@ != "multiselect"@,
        "key"@ != "type"@,
        "title"@ != "description"@,
{
    reveal_strlit("boolean");
    reveal_strlit("string");
    reveal_strlit("multiselect");
    reveal_strlit("key");
    reveal_strlit("type");
    reveal_strlit("title");
    reveal_strlit("description");
    assert("boolean"@.len() == 7 && "string"@.len() == 6 && "multiselect"@.len() == 11);
    assert("key"@.len() == 3 && "type"@.len() == 4);
    assert("title"@.len() == 5 && "description"@.len() == 11);
}

proof fn lemma_listed(key: Seq<char>, options: Seq<JsonV>, i: int, label: Seq<char>, value: Seq<char>)
    -> (n: int)
    requires
        0 <= i < options.len(),
        options[i].str_at("label"@) == Some(label),
        options[i].str_at("value"@) == Some(value),
    ensures
        0 <= n < listed_choices(key, options).len(),
        listed_choices(key, options)[n] == (ChoiceV {
            label,
            description: options[i].str_at("description"@),
            key,
            value: JsonV::Str(value),
        }),
    decreases options.len(),
{
    let init = options.drop_last();
    if i == options.len() - 1 {
        listed_choices(key, init).len() as int
    } else {
        assert(init[i] == options[i]);
        lemma_listed(key, init, i, label, value)
    }
}

proof fn lemma_in_form(fields: Seq<JsonV>, lone: bool, f: int, n: int) -> (m: int)
    requires
        0 <= f < fields.len(),
        0 <= n < field_choices(fields[f], lone).len(),
    ensures
        0 <= m < choices_of(fields, lone).len(),
        choices_of(fields, lone)[m] == field_choices(fields[f], lone)[n],
    decreases fields.len(),
{
    let init = fields.drop_last();
    if f == fields.len() - 1 {
        choices_of(init, lone).len() + n
    } else {
        assert(init[f] == fields[f]);
        lemma_in_form(init, lone, f, n)
    }
}

/// Every option of a field with one or several values can be picked, whatever
/// stands around the field: an option with a label and a value is a choice of
/// the form for that field, its label and description stand on the card, and
/// picking that label alone answers the field with that value, if the label
/// stands for nothing else. A field with several values is answered with a
/// list.
pub proof fn listed_options_can_be_picked(
    form: JsonV,
    f: int,
    i: int,
    key: Seq<char>,
    label: Seq<char>,
    value: Seq<char>,
)
    requires
        0 <= f < form.items_at("fields"@).len(),
        ({
            let field = form.items_at("fields"@)[f];
            &&& field.str_at("key"@) == Some(key)
            &&& key.len() > 0
            &&& field.str_at("type"@) == Some("string"@) || field.str_at("type"@) == Some(
                "multiselect"@,
            )
            &&& 0 <= i < field.items_at("options"@).len()
            &&& field.items_at("options"@)[i].str_at("label"@) == Some(label)
            &&& field.items_at("options"@)[i].str_at("value"@) == Some(value)
        }),
    ensures
        ({
            let fields = form.items_at("fields"@);
            let told = fields[f].items_at("options"@)[i].str_at("description"@);
            let choices = form_choices(form);
            let picks = answer_entries(form, seq![label]);
            &&& exists|n: int|
                0 <= n < choices.len() && #[trigger] choices[n] == (ChoiceV {
                    label,
                    description: told,
                    key,
                    value: JsonV::Str(value),
                })
            &&& form_prompt(form) matches Some(card) ==> exists|n: int|
                0 <= n < card.options.len() && #[trigger] card.options[n] == (OptionV {
                    label,
                    description: told,
                })
            &&& (forall|n: int|
                0 <= n < choices.len() && (#[trigger] choices[n]).label == label ==> choices[n].key
                    == key && choices[n].value == JsonV::Str(value)) ==> {
                &&& picks is Some
                &&& fields[f].str_at("type"@) == Some("multiselect"@) ==> json::find(picks->0, key)
                    == Some(JsonV::Array(seq![JsonV::Str(value)]))
                &&& (forall|g: int|
                    0 <= g < fields.len() && (#[trigger] fields[g]).str_at("key"@) == Some(key)
                        ==> fields[g].str_at("type"@) == Some("string"@)) ==> json::find(
                    picks->0,
                    key,
                ) == Some(JsonV::Str(value))
            }
        }),
{
    lemma_types();
    let fields = form.items_at("fields"@);
    let field = fields[f];
    let options = field.items_at("options"@);
    let choices = form_choices(form);
    let lone = fields.len() == 1;
    let n = lemma_listed(key, options, i, label, value);
    let m = lemma_in_form(fields, lone, f, n);
    let told = options[i].str_at("description"@);
    assert(choices[m] == (ChoiceV { label, description: told, key, value: JsonV::Str(value) }));
    if form_prompt(form) is Some {
        assert(form_prompt(form)->0.options[m] == (OptionV { label, description: told }));
    }
    if forall|n: int|
        0 <= n < choices.len() && (#[trigger] choices[n]).label == label ==> choices[n].key == key
            && choices[n].value == JsonV::Str(value) {
        let labels = seq![label];
        resolving_finds_the_label(choices, label);
        assert(resolve(choices, label) is Some) by {
            if resolve(choices, label) is None {
                assert(choices[m].label != label);
            }
        }
        let c = resolve(choices, label)->0;
        let k = choose|k: int| 0 <= k < choices.len() && choices[k] == c;
        assert(choices[k].label == label);
        reveal_with_fuel(answer_entries, 2);
        assert(labels.drop_last() =~= Seq::empty());
        assert(labels.last() == label);
        let none = Seq::<(Seq<char>, JsonV)>::empty();
        assert(json::find(none, key) is None);
        if field.str_at("type"@) == Some("multiselect"@) {
            assert(takes_many(form, key));
            json::find_after_bind(none, key, JsonV::Array(seq![JsonV::Str(value)]), key);
        }
        if forall|g: int|
            0 <= g < fields.len() && (#[trigger] fields[g]).str_at("key"@) == Some(key)
                ==> fields[g].str_at("type"@) == Some("string"@) {
            assert(!takes_many(form, key));
            json::find_after_bind(none, key, JsonV::Str(value), key);
        }
    }
}

/// A yes-or-no field can be answered both ways: yes stands for true and no for
/// false. A form's only field is asked by these words alone; beside others the
/// words carry the field's title, or its key where it has no title.
pub proof fn booleans_can_be_answered(form: JsonV, f: int, key: Seq<char>, yes: bool)
    requires
        0 <= f < form.items_at("fields"@).len(),
        form.items_at("fields"@)[f].str_at("key"@) == Some(key),
        key.len() > 0,
        form.items_at("fields"@)[f].str_at("type"@) == Some("boolean"@),
    ensures
        ({
            let fields = form.items_at("fields"@);
            let word = if yes {
                "Yes"@
            } else {
                "No"@
            };
            let label = if fields.len() == 1 {
                word
            } else {
                match fields[f].str_at("title"@) {
                    Some(title) => title + ": "@ + word,
                    None => key + ": "@ + word,
                }
            };
            let choices = form_choices(form);
            let picks = answer_entries(form, seq![label]);
            &&& exists|n: int|
                0 <= n < choices.len() && #[trigger] choices[n] == (ChoiceV {
                    label,
                    description: None,
                    key,
                    value: JsonV::Bool(yes),
                })
            &&& form_prompt(form) matches Some(card) ==> exists|n: int|
                0 <= n < card.options.len() && (#[trigger] card.options[n]).label == label
            &&& (forall|n: int|
                0 <= n < choices.len() && (#[trigger] choices[n]).label == label ==> choices[n].key
                    == key && choices[n].value == JsonV::Bool(yes)) && (forall|g: int|
                0 <= g < fields.len() && (#[trigger] fields[g]).str_at("key"@) == Some(key)
                    ==> fields[g].str_at("type"@) == Some("boolean"@)) ==> picks is Some
                && json::find(picks->0, key) == Some(JsonV::Bool(yes))
        }),
{
    lemma_types();
    let fields = form.items_at("fields"@);
    let field = fields[f];
    let word = if yes {
        "Yes"@
    } else {
        "No"@
    };
    let label = if fields.len() == 1 {
        word
    } else {
        match field.str_at("title"@) {
            Some(title) => title + ": "@ + word,
            None => key + ": "@ + word,
        }
    };
    let choices = form_choices(form);
    let lone = fields.len() == 1;
    let n: int = if yes {
        0
    } else {
        1
    };
    let m = lemma_in_form(fields, lone, f, n);
    assert(choices[m] == (ChoiceV { label, description: None, key, value: JsonV::Bool(yes) }));
    if form_prompt(form) is Some {
        assert(form_prompt(form)->0.options[m].label == label);
    }
    if (forall|n: int|
        0 <= n < choices.len() && (#[trigger] choices[n]).label == label ==> choices[n].key == key
            && choices[n].value == JsonV::Bool(yes)) && (forall|g: int|
        0 <= g < fields.len() && (#[trigger] fields[g]).str_at("key"@) == Some(key)
            ==> fields[g].str_at("type"@) == Some("boolean"@)) {
        let labels = seq![label];
        resolving_finds_the_label(choices, label);
        assert(resolve(choices, label) is Some) by {
            if resolve(choices, label) is None {
                assert(choices[m].label != label);
            }
        }
        let c = resolve(choices, label)->0;
        let k = choose|k: int| 0 <= k < choices.len() && choices[k] == c;
        assert(choices[k].label == label);
        reveal_with_fuel(answer_entries, 2);
        assert(labels.drop_last() =~= Seq::empty());
        assert(labels.last() == label);
        let none = Seq::<(Seq<char>, JsonV)>::empty();
        assert(!takes_many(form, key));
        json::find_after_bind(none, key, JsonV::Bool(yes), key);
    }
}

/// Where two choices have the same label, it stands for the later one.
pub proof fn later_choices_take_the_label(choices: Seq<ChoiceV>, label: Seq<char>, i: int)
    requires
        0 <= i < choices.len(),
        choices[i].label == label,
        forall|j: int| i < j < choices.len() ==> (#[trigger] choices[j]).label != label,
    ensures
        resolve(choices, label) == Some(choices[i]),
    decreases choices.len(),
{
    let init = choices.drop_last();
    if i < choices.len() - 1 {
        assert(choices[choices.len() - 1].label != label);
        assert(init[i] == choices[i]);
        assert forall|j: int| i < j < init.len() implies (#[trigger] init[j]).label != label by {
            assert(choices[j] == init[j]);
        }
        later_choices_take_the_label(init, label, i);
    }
}

proof fn lemma_listed_source(key: Seq<char>, options: Seq<JsonV>, n: int) -> (i: int)
    requires
        0 <= n < listed_choices(key, options).len(),
    ensures
        0 <= i < options.len(),
        options[i].str_at("label"@) == Some(listed_choices(key, options)[n].label),
        listed_choices(key, options)[n].value == JsonV::Str(options[i].str_at("value"@)->0),
        options[i].str_at("value"@) is Some,
        listed_choices(key, options)[n].key == key,
    decreases options.len(),
{
    let init = options.drop_last();
    if n < listed_choices(key, init).len() {
        let i = lemma_listed_source(key, init, n);
        assert(init[i] == options[i]);
        i
    } else {
        assert(options[options.len() - 1] == options.last());
        options.len() - 1
    }
}

proof fn lemma_form_source(fields: Seq<JsonV>, lone: bool, n: int) -> (at: (int, int))
    requires
        0 <= n < choices_of(fields, lone).len(),
    ensures
        0 <= at.0 < fields.len(),
        0 <= at.1 < field_choices(fields[at.0], lone).len(),
        choices_of(fields, lone)[n] == field_choices(fields[at.0], lone)[at.1],
    decreases fields.len(),
{
    let init = fields.drop_last();
    let before = choices_of(init, lone).len();
    if n < before {
        let at = lemma_form_source(init, lone, n);
        assert(init[at.0] == fields[at.0]);
        at
    } else {
        assert(fields[fields.len() - 1] == fields.last());
        (fields.len() - 1, n - before)
    }
}

/// Nothing is made up: every choice of a form is for one of its fields, and
/// its value is that of one of the field's options, or true or false where the
/// field asks yes or no.
pub proof fn choices_come_from_the_form(form: JsonV, n: int) -> (at: (int, int))
    requires
        0 <= n < form_choices(form).len(),
    ensures
        ({
            let choice = form_choices(form)[n];
            let fields = form.items_at("fields"@);
            let field = fields[at.0];
            let options = field.items_at("options"@);
            &&& 0 <= at.0 < fields.len()
            &&& field.str_at("key"@) == Some(choice.key)
            &&& choice.key.len() > 0
            &&& choice.value is Bool ==> field.str_at("type"@) == Some("boolean"@)
            &&& choice.value !is Bool ==> {
                &&& field.str_at("type"@) == Some("string"@) || field.str_at("type"@) == Some(
                    "multiselect"@,
                )
                &&& 0 <= at.1 < options.len()
                &&& options[at.1].str_at("label"@) == Some(choice.label)
                &&& options[at.1].get("value"@) == Some(choice.value)
            }
        }),
{
    lemma_types();
    let fields = form.items_at("fields"@);
    let lone = fields.len() == 1;
    let (f, k) = lemma_form_source(fields, lone, n);
    let field = fields[f];
    if field.str_at("type"@) == Some("boolean"@) {
        (f, 0)
    } else {
        let i = lemma_listed_source(field.str_at("key"@)->0, field.items_at("options"@), k);
        (f, i)
    }
}

/// Fields are offered in the form's order: the choices of a run of fields are
/// those of its first part, and then those of the rest.
pub proof fn choices_follow_the_fields(a: Seq<JsonV>, b: Seq<JsonV>, lone: bool)
    ensures
        choices_of(a + b, lone) == choices_of(a, lone) + choices_of(b, lone),
    decreases b.len(),
{
    if b.len() == 0 {
        assert(a + b =~= a);
        assert(choices_of(a, lone) + choices_of(b, lone) =~= choices_of(a, lone));
    } else {
        choices_follow_the_fields(a, b.drop_last(), lone);
        assert((a + b).drop_last() =~= a + b.drop_last());
        assert((a + b).last() == b.last());
        assert(choices_of(a + b, lone) =~= choices_of(a, lone) + choices_of(b, lone));
    }
}

/// What a form's card says: it asks by the form's title, tells the title and
/// the description of every field, takes several picks exactly if a field with
/// a key takes several values, and is answered under the form's id. A form
/// without an id has no card.
pub proof fn cards_tell_the_form(form: JsonV)
    ensures
        form_prompt(form) is Some <==> form.str_at("id"@) is Some,
        form_prompt(form) matches Some(card) ==> {
            let fields = form.items_at("fields"@);
            let told = card.tool_input->0.items_at("fields"@);
            &&& card.kind == "question"@
            &&& card.native_id == form.str_at("id"@)
            &&& card.question == form.str_at("title"@)
            &&& !card.plan_exit
            &&& card.tool is None
            &&& card.header is None
            &&& card.options.len() == form_choices(form).len()
            &&& card.multi_select <==> exists|i: int|
                0 <= i < fields.len() && (#[trigger] fields[i]).str_at("type"@) == Some(
                    "multiselect"@,
                ) && fields[i].str_at("key"@) is Some && fields[i].str_at("key"@)->0.len() > 0
            &&& card.tool_input is Some
            &&& told.len() == fields.len()
            &&& forall|i: int|
                0 <= i < fields.len() ==> (#[trigger] told[i]).member("title"@)
                    == fields[i].member("title"@) && told[i].member("description"@)
                    == fields[i].member("description"@)
        },
{
    lemma_types();
    if form_prompt(form) is Some {
        let card = form_prompt(form)->0;
        let fields = form.items_at("fields"@);
        let told = card.tool_input->0.items_at("fields"@);
        reveal_with_fuel(json::find, 2);
        assert(told =~= Seq::new(fields.len(), |i: int| told_field(fields[i])));
        assert forall|i: int| 0 <= i < fields.len() implies (#[trigger] told[i]).member("title"@)
            == fields[i].member("title"@) && told[i].member("description"@) == fields[i].member(
            "description"@,
        ) by {
            let title = fields[i].member("title"@);
            let about = fields[i].member("description"@);
            json::find_after_bind(seq![("title"@, title)], "description"@, about, "title"@);
        }
        if card.multi_select {
            let i = choose|i: int| 0 <= i < fields.len() && is_multi_field(#[trigger] fields[i]);
            assert(fields[i].str_at("type"@) == Some("multiselect"@));
        }
        if exists|i: int|
            0 <= i < fields.len() && (#[trigger] fields[i]).str_at("type"@) == Some(
                "multiselect"@,
            ) && fields[i].str_at("key"@) is Some && fields[i].str_at("key"@)->0.len() > 0 {
            let i = choose|i: int|
                0 <= i < fields.len() && (#[trigger] fields[i]).str_at("type"@) == Some(
                    "multiselect"@,
                ) && fields[i].str_at("key"@) is Some && fields[i].str_at("key"@)->0.len() > 0;
            assert(is_multi_field(form.items_at("fields"@)[i]));
        }
    }
}

} // verus!
