//! The model catalog of the agent: its listings, read into models with the
//! reasoning variants each of them offers.

use vstd::prelude::*;

use crate::cards;
use crate::cards::REASONING_DEFAULT_ID;
use crate::json;
use crate::json::{Json, JsonV};
use crate::native;
use crate::text;

verus! {

broadcast use json::group_json;

// ---------------------------------------------------------------------------
// Models
// ---------------------------------------------------------------------------

/// One choice of a picker.
#[derive(Debug)]
pub struct OptionChoice {
    pub id: String,
    pub label: String,
    pub description: Option<String>,
}

/// The model of an [`OptionChoice`].
#[verifier::ext_equal]
pub struct ChoiceV {
    pub id: Seq<char>,
    pub label: Seq<char>,
    pub description: Option<Seq<char>>,
}

impl View for OptionChoice {
    type V = ChoiceV;

    open spec fn view(&self) -> ChoiceV {
        ChoiceV {
            id: self.id@,
            label: self.label@,
            description: text::opt_text(self.description),
        }
    }
}

impl OptionChoice {
    /// A choice with a description.
    pub fn described(id: &str, label: &str, description: &str) -> (r: OptionChoice)
        ensures
            r@ == (ChoiceV { id: id@, label: label@, description: Some(description@) }),
    {
        OptionChoice {
            id: id.to_owned(),
            label: label.to_owned(),
            description: Some(description.to_owned()),
        }
    }

    /// A choice that is called by its id.
    pub fn plain(id: &str) -> (r: OptionChoice)
        ensures
            r@ == plain_choice(id@),
    {
        OptionChoice { id: id.to_owned(), label: id.to_owned(), description: None }
    }
}

/// A choice that is called by its id.
pub open spec fn plain_choice(id: Seq<char>) -> ChoiceV {
    ChoiceV { id, label: id, description: None }
}

/// The models of a sequence of choices.
pub open spec fn choice_models(v: Seq<OptionChoice>) -> Seq<ChoiceV> {
    Seq::new(v.len(), |i: int| v[i]@)
}

/// A model that the agent can run.
#[derive(Debug)]
pub struct ModelInfo {
    pub id: String,
    pub display_name: Option<String>,
    pub description: Option<String>,
    /// The reasoning levels on offer: an empty list says that there are none,
    /// no list that nothing is known of them.
    pub reasoning_levels: Option<Vec<OptionChoice>>,
}

/// The model of a [`ModelInfo`].
#[verifier::ext_equal]
pub struct ModelV {
    pub id: Seq<char>,
    pub display_name: Option<Seq<char>>,
    pub description: Option<Seq<char>>,
    pub levels: Option<Seq<ChoiceV>>,
}

impl View for ModelInfo {
    type V = ModelV;

    open spec fn view(&self) -> ModelV {
        ModelV {
            id: self.id@,
            display_name: text::opt_text(self.display_name),
            description: text::opt_text(self.description),
            levels: match self.reasoning_levels {
                Some(v) => Some(choice_models(v@)),
                None => None,
            },
        }
    }
}

/// The models of a sequence of models.
pub open spec fn infos(v: Seq<ModelInfo>) -> Seq<ModelV> {
    Seq::new(v.len(), |i: int| v[i]@)
}

/// A model of which only the id is known.
pub open spec fn bare_model(id: Seq<char>) -> ModelV {
    ModelV { id, display_name: None, description: None, levels: None }
}

/// The choices for the ids, without the sentinel for no override.
pub open spec fn native_choices(ids: Seq<Seq<char>>) -> Seq<ChoiceV>
    decreases ids.len(),
{
    if ids.len() == 0 {
        Seq::empty()
    } else if ids.last() == REASONING_DEFAULT_ID@ {
        native_choices(ids.drop_last())
    } else {
        native_choices(ids.drop_last()).push(plain_choice(ids.last()))
    }
}

/// The reasoning choices for the ids: first the sentinel, then every other
/// id; none at all if there are no ids.
pub open spec fn reasoning_choices(ids: Seq<Seq<char>>) -> Seq<ChoiceV> {
    if ids.len() == 0 {
        Seq::empty()
    } else {
        seq![plain_choice(REASONING_DEFAULT_ID@)] + native_choices(ids)
    }
}

impl ModelInfo {
    /// A model of which only the id is known.
    pub fn new(id: &str) -> (r: ModelInfo)
        ensures
            r@ == bare_model(id@),
    {
        ModelInfo {
            id: id.to_owned(),
            display_name: None,
            description: None,
            reasoning_levels: None,
        }
    }

    /// The model with reasoning choices for the ids.
    pub fn with_reasoning(self, ids: &Vec<String>) -> (r: ModelInfo)
        ensures
            r@ == (ModelV { levels: Some(reasoning_choices(text::texts(ids@))), ..self@ }),
    {
        let ghost all = text::texts(ids@);
        let mut levels: Vec<OptionChoice> = Vec::new();
        if ids.len() > 0 {
            levels.push(OptionChoice::plain(REASONING_DEFAULT_ID));
            let mut i: usize = 0;
            assert(all.take(0) =~= Seq::empty());
            assert(choice_models(levels@) =~= seq![plain_choice(REASONING_DEFAULT_ID@)]
                + native_choices(all.take(0)));
            while i < ids.len()
                invariant
                    i <= ids@.len(),
                    all == text::texts(ids@),
                    choice_models(levels@) == seq![plain_choice(REASONING_DEFAULT_ID@)]
                        + native_choices(all.take(i as int)),
                decreases ids@.len() - i,
            {
                assert(all.take(i + 1).drop_last() =~= all.take(i as int));
                assert(all.take(i + 1).last() == ids@[i as int]@);
                if !text::str_eq(ids[i].as_str(), REASONING_DEFAULT_ID) {
                    let ghost before = choice_models(levels@);
                    let choice: OptionChoice = OptionChoice::plain(ids[i].as_str());
                    levels.push(choice);
                    assert(choice_models(levels@) =~= before.push(choice@));
                    assert(choice_models(levels@) =~= seq![plain_choice(REASONING_DEFAULT_ID@)]
                        + native_choices(all.take(i + 1)));
                }
                i += 1;
            }
            assert(all.take(i as int) =~= all);
        }
        assert(choice_models(levels@) =~= reasoning_choices(all));
        ModelInfo {
            id: self.id,
            display_name: self.display_name,
            description: self.description,
            reasoning_levels: Some(levels),
        }
    }

    /// The model with a name and a description to show.
    pub fn with_label(self, name: Option<&str>, description: Option<&str>) -> (r: ModelInfo)
        ensures
            r@ == (ModelV {
                display_name: text::opt_str(name),
                description: text::opt_str(description),
                ..self@
            }),
    {
        ModelInfo {
            id: self.id,
            display_name: text::opt_owned(name),
            description: text::opt_owned(description),
            reasoning_levels: self.reasoning_levels,
        }
    }
}

/// The provider in a `provider/model` id.
pub open spec fn provider_of(id: Seq<char>) -> Seq<char> {
    match text::split_once(id, '/') {
        Some((provider, _)) => provider,
        None => id,
    }
}

/// The provider in a `provider/model` id.
pub fn model_provider(id: &str) -> (r: String)
    ensures
        r@ == provider_of(id@),
{
    match text::split_once_text(id, '/') {
        Some((provider, _)) => provider,
        None => id.to_owned(),
    }
}

// ---------------------------------------------------------------------------
// The plain listing
// ---------------------------------------------------------------------------

/// The ids in a plain listing: the lines with a slash, trimmed.
pub open spec fn listed_ids(lines: Seq<Seq<char>>) -> Seq<Seq<char>>
    decreases lines.len(),
{
    if lines.len() == 0 {
        Seq::empty()
    } else {
        let init = listed_ids(lines.drop_last());
        let line = text::trim(lines.last());
        if line.contains('/') {
            init.push(line)
        } else {
            init
        }
    }
}

/// The ids in a plain listing.
pub fn model_id_lines(out: &str) -> (r: Vec<String>)
    ensures
        text::texts(r@) == listed_ids(text::lines(out@)),
{
    let lines: Vec<String> = text::lines_of(out);
    let ghost all = text::texts(lines@);
    let mut ids: Vec<String> = Vec::new();
    let mut i: usize = 0;
    assert(all.take(0) =~= Seq::empty());
    assert(text::texts(ids@) =~= Seq::empty());
    while i < lines.len()
        invariant
            i <= lines@.len(),
            all == text::texts(lines@),
            text::texts(ids@) == listed_ids(all.take(i as int)),
        decreases lines@.len() - i,
    {
        assert(all.take(i + 1).drop_last() =~= all.take(i as int));
        assert(all.take(i + 1).last() == lines@[i as int]@);
        let line: String = text::trim_text(lines[i].as_str());
        if text::contains_char(line.as_str(), '/') {
            let ghost before = text::texts(ids@);
            ids.push(line);
            assert(text::texts(ids@) =~= before.push(line@));
        }
        i += 1;
    }
    assert(all.take(i as int) =~= all);
    ids
}

// ---------------------------------------------------------------------------
// Reasoning variants
// ---------------------------------------------------------------------------

/// How strong a variant is: its place among the known ones, weakest first,
/// and behind them all if it is not known.
pub open spec fn rank(id: Seq<char>) -> nat {
    if id == "none"@ {
        0
    } else if id == "minimal"@ {
        1
    } else if id == "low"@ {
        2
    } else if id == "medium"@ {
        3
    } else if id == "high"@ {
        4
    } else if id == "xhigh"@ {
        5
    } else if id == "max"@ {
        6
    } else {
        7
    }
}

/// How strong a variant is.
pub fn variant_rank(id: &str) -> (r: u8)
    ensures
        r == rank(id@),
{
    if text::str_eq(id, "none") {
        0
    } else if text::str_eq(id, "minimal") {
        1
    } else if text::str_eq(id, "low") {
        2
    } else if text::str_eq(id, "medium") {
        3
    } else if text::str_eq(id, "high") {
        4
    } else if text::str_eq(id, "xhigh") {
        5
    } else if text::str_eq(id, "max") {
        6
    } else {
        7
    }
}

/// `a` is shown before `b`: it is weaker, or both are unknown and it comes
/// first in the alphabet.
pub open spec fn weaker(a: Seq<char>, b: Seq<char>) -> bool {
    rank(a) < rank(b) || (rank(a) == rank(b) && text::lex_less(a, b))
}

fn is_weaker(a: &str, b: &str) -> (r: bool)
    ensures
        r == weaker(a@, b@),
{
    let x: u8 = variant_rank(a);
    let y: u8 = variant_rank(b);
    x < y || (x == y && text::text_less(a, b))
}

/// The place of `id` among ids in order: behind the last that it is not
/// weaker than.
pub open spec fn place(ids: Seq<Seq<char>>, id: Seq<char>) -> int
    decreases ids.len(),
{
    if ids.len() == 0 {
        0
    } else if weaker(id, ids.last()) {
        place(ids.drop_last(), id)
    } else {
        ids.len() as int
    }
}

/// The ids from the weakest to the strongest.
pub open spec fn ramp(ids: Seq<Seq<char>>) -> Seq<Seq<char>>
    decreases ids.len(),
{
    if ids.len() == 0 {
        Seq::empty()
    } else {
        let init = ramp(ids.drop_last());
        init.insert(place(init, ids.last()), ids.last())
    }
}

fn place_in(ids: &Vec<String>, id: &str) -> (r: usize)
    ensures
        r == place(text::texts(ids@), id@),
        r <= ids@.len(),
{
    let ghost all = text::texts(ids@);
    let mut i: usize = ids.len();
    assert(all.take(i as int) =~= all);
    while i > 0
        invariant
            i <= ids@.len(),
            all == text::texts(ids@),
            place(all, id@) == place(all.take(i as int), id@),
        decreases i,
    {
        assert(all.take(i as int).last() == ids@[i - 1]@);
        assert(all.take(i as int).drop_last() =~= all.take(i - 1));
        if !is_weaker(id, ids[i - 1].as_str()) {
            return i;
        }
        i -= 1;
    }
    i
}

fn in_order(ids: &Vec<String>) -> (r: Vec<String>)
    ensures
        text::texts(r@) == ramp(text::texts(ids@)),
{
    let ghost all = text::texts(ids@);
    let mut out: Vec<String> = Vec::new();
    let mut i: usize = 0;
    assert(all.take(0) =~= Seq::empty());
    assert(text::texts(out@) =~= Seq::empty());
    while i < ids.len()
        invariant
            i <= ids@.len(),
            all == text::texts(ids@),
            text::texts(out@) == ramp(all.take(i as int)),
        decreases ids@.len() - i,
    {
        assert(all.take(i + 1).drop_last() =~= all.take(i as int));
        assert(all.take(i + 1).last() == ids@[i as int]@);
        let ghost before = text::texts(out@);
        let id: String = ids[i].clone();
        let at: usize = place_in(&out, id.as_str());
        out.insert(at, id);
        assert(text::texts(out@) =~= before.insert(at as int, id@));
        i += 1;
    }
    assert(all.take(i as int) =~= all);
    out
}

/// The keys of an object.
pub open spec fn keys_of(entries: Seq<(Seq<char>, JsonV)>) -> Seq<Seq<char>> {
    Seq::new(entries.len(), |i: int| entries[i].0)
}

/// The texts among the items of an array.
pub open spec fn strings_of(items: Seq<JsonV>) -> Seq<Seq<char>>
    decreases items.len(),
{
    if items.len() == 0 {
        Seq::empty()
    } else {
        match items.last().as_str() {
            Some(s) => strings_of(items.drop_last()).push(s),
            None => strings_of(items.drop_last()),
        }
    }
}

/// The variants that a model's description names, as the keys of an object or
/// the items of an array.
pub open spec fn named_variants(model: JsonV) -> Option<Seq<Seq<char>>> {
    match model.get("variants"@) {
        Some(JsonV::Object(entries)) => Some(keys_of(entries)),
        Some(JsonV::Array(items)) => Some(strings_of(items)),
        _ => None,
    }
}

/// The variants that a model's description names, from the weakest to the
/// strongest.
pub open spec fn variants_of(model: JsonV) -> Option<Seq<Seq<char>>> {
    match named_variants(model) {
        Some(ids) => Some(ramp(ids)),
        None => None,
    }
}

/// The keys of an object.
pub fn object_keys(entries: &Vec<(String, Json)>) -> (r: Vec<String>)
    ensures
        text::texts(r@) == keys_of(json::entry_models(entries@)),
{
    let ghost all = keys_of(json::entry_models(entries@));
    let mut out: Vec<String> = Vec::new();
    let mut i: usize = 0;
    assert(text::texts(out@) =~= all.take(0));
    while i < entries.len()
        invariant
            i <= entries@.len(),
            all == keys_of(json::entry_models(entries@)),
            all.len() == entries@.len(),
            text::texts(out@) == all.take(i as int),
        decreases entries@.len() - i,
    {
        let ghost before = text::texts(out@);
        let key: String = entries[i].0.clone();
        assert(all[i as int] == key@);
        out.push(key);
        assert(text::texts(out@) =~= before.push(key@));
        i += 1;
        assert(text::texts(out@) =~= all.take(i as int));
    }
    assert(all.take(i as int) =~= all);
    out
}

fn item_strings(items: &Vec<Json>) -> (r: Vec<String>)
    ensures
        text::texts(r@) == strings_of(json::models(items@)),
{
    let ghost all = json::models(items@);
    let mut out: Vec<String> = Vec::new();
    let mut i: usize = 0;
    assert(all.take(0) =~= Seq::empty());
    assert(text::texts(out@) =~= Seq::empty());
    while i < items.len()
        invariant
            i <= items@.len(),
            all == json::models(items@),
            text::texts(out@) == strings_of(all.take(i as int)),
        decreases items@.len() - i,
    {
        assert(all.take(i + 1).drop_last() =~= all.take(i as int));
        assert(all.take(i + 1).last() == items@[i as int]@);
        match items[i].as_str() {
            Some(s) => {
                let ghost before = text::texts(out@);
                let s: String = s.to_owned();
                out.push(s);
                assert(text::texts(out@) =~= before.push(s@));
            },
            None => {},
        }
        i += 1;
    }
    assert(all.take(i as int) =~= all);
    out
}

/// The optional texts of an optional vector of strings.
pub open spec fn opt_texts(v: Option<Vec<String>>) -> Option<Seq<Seq<char>>> {
    match v {
        Some(v) => Some(text::texts(v@)),
        None => None,
    }
}

/// The variants that a model's description names, from the weakest to the
/// strongest.
pub fn variant_ids(model: &Json) -> (r: Option<Vec<String>>)
    ensures
        opt_texts(r) == variants_of(model@),
{
    match model.get("variants") {
        Some(Json::Object(entries)) => {
            let ids: Vec<String> = object_keys(entries);
            Some(in_order(&ids))
        },
        Some(Json::Array(items)) => {
            let ids: Vec<String> = item_strings(items);
            Some(in_order(&ids))
        },
        _ => None,
    }
}

// ---------------------------------------------------------------------------
// The verbose listing
// ---------------------------------------------------------------------------

/// The text starts with this character.
pub open spec fn begins(s: Seq<char>, c: char) -> bool {
    s.len() > 0 && s[0] == c
}

fn begins_with(s: &str, c: char) -> (r: bool)
    ensures
        r == begins(s@, c),
{
    let v: Vec<char> = text::chars_of(s);
    v.len() > 0 && v[0] == c
}

/// The line announces a model: it has a slash and opens no block.
pub open spec fn is_header(line: Seq<char>) -> bool {
    text::trim(line).contains('/') && !begins(text::trim(line), '{')
}

/// The line opens a block.
pub open spec fn opens_block(line: Seq<char>) -> bool {
    begins(text::trim_start(line), '{')
}

/// How deep the braces are, and whether a string literal or an escape is open.
pub struct Scan {
    pub depth: nat,
    pub in_str: bool,
    pub esc: bool,
}

/// The scan behind one more character. Braces count outside string literals
/// only.
pub open spec fn scan_char(s: Scan, c: char) -> Scan {
    if s.esc {
        Scan { esc: false, ..s }
    } else if c == '\\' && s.in_str {
        Scan { esc: true, ..s }
    } else if c == '"' {
        Scan { in_str: !s.in_str, ..s }
    } else if c == '{' && !s.in_str {
        Scan { depth: s.depth + 1, ..s }
    } else if c == '}' && !s.in_str && s.depth > 0 {
        Scan { depth: (s.depth - 1) as nat, ..s }
    } else {
        s
    }
}

/// The scan behind a text.
pub open spec fn scan(s: Scan, t: Seq<char>) -> Scan
    decreases t.len(),
{
    if t.len() == 0 {
        s
    } else {
        scan_char(scan(s, t.drop_last()), t.last())
    }
}

/// How deep the braces are behind a line. No string literal goes beyond its
/// line.
pub open spec fn depth_after(depth: nat, line: Seq<char>) -> nat {
    scan(Scan { depth, in_str: false, esc: false }, line).depth
}

/// How many lines a block has: up to the one behind which no brace is open.
pub open spec fn block_len(lines: Seq<Seq<char>>, depth: nat) -> nat
    decreases lines.len(),
{
    if lines.len() == 0 {
        0
    } else {
        let after = depth_after(depth, lines[0]);
        if after == 0 {
            1
        } else {
            1 + block_len(lines.drop_first(), after)
        }
    }
}

/// The lines, each with a line feed behind it.
pub open spec fn block_text(lines: Seq<Seq<char>>) -> Seq<char>
    decreases lines.len(),
{
    if lines.len() == 0 {
        Seq::empty()
    } else {
        block_text(lines.drop_last()) + lines.last() + seq!['\n']
    }
}

/// The announced models of a listing, each with the text of its block. A line
/// that announces a model without a block behind it is passed over.
pub open spec fn blocks(lines: Seq<Seq<char>>) -> Seq<(Seq<char>, Seq<char>)>
    decreases lines.len(),
{
    if lines.len() == 0 {
        Seq::empty()
    } else if is_header(lines[0]) && lines.len() > 1 && opens_block(lines[1]) {
        let n = block_len(lines.drop_first(), 0);
        proof {
            lemma_block_len(lines.drop_first(), 0);
        }
        seq![(text::trim(lines[0]), block_text(lines.drop_first().take(n as int)))] + blocks(
            lines.skip(1 + n as int),
        )
    } else {
        blocks(lines.drop_first())
    }
}

/// The model that is announced by a header with a block. A block that is no
/// document still gives the model, without variants.
pub open spec fn block_model(header: Seq<char>, parsed: Option<JsonV>) -> ModelV {
    let name = match parsed {
        Some(doc) => doc.str_at("name"@),
        None => None,
    };
    let levels = match parsed {
        Some(doc) => match variants_of(doc) {
            Some(ids) => Some(reasoning_choices(ids)),
            None => None,
        },
        None => None,
    };
    ModelV { id: header, display_name: name, description: None, levels }
}

/// The models of a verbose listing.
pub open spec fn verbose_models(out: Seq<char>) -> Seq<ModelV> {
    let bs = blocks(text::lines(out));
    Seq::new(bs.len(), |i: int| block_model(bs[i].0, native::parsed(bs[i].1)))
}

/// A block stays within the lines.
pub proof fn lemma_block_len(lines: Seq<Seq<char>>, depth: nat)
    ensures
        block_len(lines, depth) <= lines.len(),
        lines.len() > 0 ==> block_len(lines, depth) > 0,
    decreases lines.len(),
{
    if lines.len() > 0 {
        lemma_block_len(lines.drop_first(), depth_after(depth, lines[0]));
    }
}

proof fn lemma_scan_step(s: Scan, t: Seq<char>, i: int)
    requires
        0 <= i < t.len(),
    ensures
        scan(s, t.take(i + 1)) == scan_char(scan(s, t.take(i)), t[i]),
{
    assert(t.take(i + 1).drop_last() =~= t.take(i));
    assert(t.take(i + 1).last() == t[i]);
}

/// How deep the braces are behind a line.
fn depth_behind(depth: u128, line: &str) -> (r: u128)
    requires
        depth <= 0xffff_ffff_ffff_fffe * 0x1_0000_0000_0000_0000,
    ensures
        r == depth_after(depth as nat, line@),
        r <= depth + 0xffff_ffff_ffff_ffff,
{
    let v: Vec<char> = text::chars_of(line);
    let ghost start = Scan { depth: depth as nat, in_str: false, esc: false };
    let mut depth_now: u128 = depth;
    let mut in_str: bool = false;
    let mut esc: bool = false;
    let mut i: usize = 0;
    assert(v@.take(0) =~= Seq::empty());
    while i < v.len()
        invariant
            i <= v@.len(),
            depth <= 0xffff_ffff_ffff_fffe * 0x1_0000_0000_0000_0000,
            depth_now <= depth + i,
            scan(start, v@.take(i as int)) == (Scan { depth: depth_now as nat, in_str, esc }),
        decreases v@.len() - i,
    {
        let c: char = v[i];
        proof {
            lemma_scan_step(start, v@, i as int);
        }
        if esc {
            esc = false;
        } else if c == '\\' && in_str {
            esc = true;
        } else if c == '"' {
            in_str = !in_str;
        } else if c == '{' && !in_str {
            depth_now = depth_now + 1;
        } else if c == '}' && !in_str && depth_now > 0 {
            depth_now = depth_now - 1;
        }
        i += 1;
    }
    assert(v@.take(i as int) =~= v@);
    depth_now
}

/// Read the block that starts at a line: its text, and the line behind it.
fn read_block(lines: &Vec<String>, from: usize) -> (r: (String, usize))
    requires
        from <= lines@.len(),
    ensures
        ({
            let rest = text::texts(lines@).skip(from as int);
            let n = block_len(rest, 0);
            &&& r.0@ == block_text(rest.take(n as int))
            &&& r.1 == from + n
            &&& r.1 <= lines@.len()
        }),
{
    let ghost rest = text::texts(lines@).skip(from as int);
    let mut block: String = String::new();
    let mut depth: u128 = 0;
    let mut i: usize = from;
    let ghost mut done: int = 0;
    proof {
        lemma_block_len(rest, 0);
        assert(rest.take(0) =~= Seq::empty());
        assert(rest.skip(0) =~= rest);
    }
    while i < lines.len()
        invariant
            from <= i <= lines@.len(),
            done == i - from,
            rest == text::texts(lines@).skip(from as int),
            block@ == block_text(rest.take(done)),
            block_len(rest, 0) == done + block_len(rest.skip(done), depth as nat),
            block_len(rest, 0) <= rest.len(),
            depth <= i * 0x1_0000_0000_0000_0000,
        decreases lines@.len() - i,
    {
        assert(rest.skip(done)[0] == lines@[i as int]@);
        assert(rest.skip(done).drop_first() =~= rest.skip(done + 1));
        assert(rest.take(done + 1).drop_last() =~= rest.take(done));
        assert(rest.take(done + 1).last() == lines@[i as int]@);
        depth = depth_behind(depth, lines[i].as_str());
        block.append(lines[i].as_str());
        block.push('\n');
        i += 1;
        assert(block@ =~= block_text(rest.take(done + 1)));
        proof {
            done = done + 1;
        }
        if depth == 0 {
            return (block, i);
        }
    }
    assert(rest.skip(done).len() == 0);
    (block, i)
}

/// The header and block texts of a sequence of pairs.
pub open spec fn block_models(v: Seq<(String, String)>) -> Seq<(Seq<char>, Seq<char>)> {
    Seq::new(v.len(), |i: int| (v[i].0@, v[i].1@))
}

/// The announced models of a listing, each with the text of its block.
pub fn verbose_blocks(out: &str) -> (r: Vec<(String, String)>)
    ensures
        block_models(r@) == blocks(text::lines(out@)),
{
    let lines: Vec<String> = text::lines_of(out);
    let ghost all = text::texts(lines@);
    let mut found: Vec<(String, String)> = Vec::new();
    let mut i: usize = 0;
    assert(all.skip(0) =~= all);
    assert(block_models(found@) =~= Seq::empty());
    assert(block_models(found@) + blocks(all.skip(0)) =~= blocks(all));
    while i < lines.len()
        invariant
            i <= lines@.len(),
            all == text::texts(lines@),
            block_models(found@) + blocks(all.skip(i as int)) == blocks(all),
        decreases lines@.len() - i,
    {
        let ghost rest = all.skip(i as int);
        assert(rest[0] == lines@[i as int]@);
        assert(rest.drop_first() =~= all.skip(i + 1));
        let header: String = text::trim_text(lines[i].as_str());
        let announced: bool = text::contains_char(header.as_str(), '/') && !begins_with(
            header.as_str(),
            '{',
        );
        let mut opened: bool = false;
        if announced && i + 1 < lines.len() {
            let next: String = text::trim_start_text(lines[i + 1].as_str());
            opened = begins_with(next.as_str(), '{');
            assert(rest[1] == lines@[i + 1]@);
        }
        if opened {
            let ghost before = block_models(found@);
            let block: (String, usize) = read_block(&lines, i + 1);
            proof {
                lemma_block_len(rest.drop_first(), 0);
            }
            let ghost n = block_len(rest.drop_first(), 0);
            assert(rest.skip(1 + n as int) =~= all.skip(i + 1 + n));
            found.push((header, block.0));
            assert(block_models(found@) =~= before.push((header@, block.0@)));
            assert(before + blocks(rest) =~= block_models(found@) + blocks(
                all.skip(i + 1 + n),
            ));
            i = block.1;
        } else {
            i += 1;
        }
    }
    assert(all.skip(i as int) =~= Seq::empty());
    assert(block_models(found@) + blocks(all.skip(i as int)) =~= block_models(found@));
    found
}

/// The model that is announced by a header with a block, given the block's
/// document.
pub fn model_of_block(header: &str, parsed: Option<&Json>) -> (r: ModelInfo)
    ensures
        r@ == block_model(header@, json::ref_model(parsed)),
{
    match parsed {
        Some(doc) => {
            let bare: ModelInfo = ModelInfo::new(header);
            let model: ModelInfo = match variant_ids(doc) {
                Some(ids) => bare.with_reasoning(&ids),
                None => bare,
            };
            model.with_label(doc.str_at("name"), None)
        },
        None => ModelInfo::new(header),
    }
}

/// The models of a verbose listing.
pub fn parse_verbose_models(out: &str) -> (r: Vec<ModelInfo>)
    ensures
        infos(r@) == verbose_models(out@),
{
    let found: Vec<(String, String)> = verbose_blocks(out);
    let ghost all = verbose_models(out@);
    let mut models: Vec<ModelInfo> = Vec::new();
    let mut i: usize = 0;
    assert(infos(models@) =~= all.take(0));
    while i < found.len()
        invariant
            i <= found@.len(),
            block_models(found@) == blocks(text::lines(out@)),
            all == verbose_models(out@),
            all.len() == found@.len(),
            infos(models@) == all.take(i as int),
        decreases found@.len() - i,
    {
        let parsed: Option<Json> = native::parse_json(found[i].1.as_str());
        let model: ModelInfo = model_of_block(found[i].0.as_str(), parsed.as_ref());
        let ghost before = infos(models@);
        assert(block_models(found@)[i as int] == (found@[i as int].0@, found@[i as int].1@));
        assert(all[i as int] == model@);
        models.push(model);
        assert(infos(models@) =~= before.push(model@));
        i += 1;
        assert(infos(models@) =~= all.take(i as int));
    }
    assert(all.take(i as int) =~= all);
    models
}

// ---------------------------------------------------------------------------
// The catalog
// ---------------------------------------------------------------------------

/// The optional models of an optional vector of models.
pub open spec fn opt_infos(v: Option<Vec<ModelInfo>>) -> Option<Seq<ModelV>> {
    match v {
        Some(v) => Some(infos(v@)),
        None => None,
    }
}

/// The catalog by the verbose listing, if it lists anything.
pub open spec fn verbose_listing(out: Option<Seq<char>>) -> Option<Seq<ModelV>> {
    match out {
        Some(t) => if verbose_models(t).len() > 0 {
            Some(verbose_models(t))
        } else {
            None
        },
        None => None,
    }
}

/// The catalog by the verbose listing. Without a listing, or where it lists
/// nothing, there is none: the plain listing is to be asked for.
pub fn verbose_catalog(out: Option<&str>) -> (r: Option<Vec<ModelInfo>>)
    ensures
        opt_infos(r) == verbose_listing(text::opt_str(out)),
{
    match out {
        Some(t) => {
            let models: Vec<ModelInfo> = parse_verbose_models(t);
            assert(infos(models@).len() == models@.len());
            if models.len() > 0 {
                Some(models)
            } else {
                None
            }
        },
        None => None,
    }
}

/// The catalog by the plain listing.
pub open spec fn plain_listing(out: Option<Seq<char>>) -> Seq<ModelV> {
    match out {
        Some(t) => listed_ids(text::lines(t)).map_values(|id: Seq<char>| bare_model(id)),
        None => Seq::empty(),
    }
}

/// The catalog by the plain listing: each id, and nothing known of it.
pub fn plain_catalog(out: Option<&str>) -> (r: Vec<ModelInfo>)
    ensures
        infos(r@) == plain_listing(text::opt_str(out)),
{
    let mut models: Vec<ModelInfo> = Vec::new();
    match out {
        Some(t) => {
            let ids: Vec<String> = model_id_lines(t);
            let ghost all = text::texts(ids@).map_values(|id: Seq<char>| bare_model(id));
            let mut i: usize = 0;
            assert(infos(models@) =~= all.take(0));
            while i < ids.len()
                invariant
                    i <= ids@.len(),
                    all == text::texts(ids@).map_values(|id: Seq<char>| bare_model(id)),
                    all.len() == ids@.len(),
                    infos(models@) == all.take(i as int),
                decreases ids@.len() - i,
            {
                let ghost before = infos(models@);
                let model: ModelInfo = ModelInfo::new(ids[i].as_str());
                assert(all[i as int] == model@);
                models.push(model);
                assert(infos(models@) =~= before.push(model@));
                i += 1;
                assert(infos(models@) =~= all.take(i as int));
            }
            assert(all.take(i as int) =~= all);
        },
        None => {
            assert(infos(models@) =~= Seq::empty());
        },
    }
    models
}

// ---------------------------------------------------------------------------
// Laws
// ---------------------------------------------------------------------------

/// The ids are in order, from the weakest to the strongest.
pub open spec fn ramps(ids: Seq<Seq<char>>) -> bool {
    forall|i: int, j: int| 0 <= i < j < ids.len() ==> !weaker(#[trigger] ids[j], #[trigger] ids[i])
}

proof fn lemma_weaker_between(a: Seq<char>, b: Seq<char>, c: Seq<char>)
    requires
        weaker(a, b),
        !weaker(c, b),
    ensures
        weaker(a, c),
        !weaker(b, a),
{
    text::lemma_lex_total(b, c);
    text::lemma_lex_irreflexive(a);
    if rank(a) == rank(b) && text::lex_less(b, a) {
        text::lemma_lex_transitive(a, b, a);
    }
    if rank(a) == rank(b) && rank(b) == rank(c) && text::lex_less(b, c) {
        text::lemma_lex_transitive(a, b, c);
    }
}

proof fn lemma_place_ramps(ids: Seq<Seq<char>>, id: Seq<char>)
    requires
        ramps(ids),
    ensures
        0 <= place(ids, id) <= ids.len(),
        forall|j: int| 0 <= j < place(ids, id) ==> !weaker(id, #[trigger] ids[j]),
        forall|j: int| place(ids, id) <= j < ids.len() ==> !weaker(#[trigger] ids[j], id),
    decreases ids.len(),
{
    if ids.len() > 0 {
        let last = ids.last();
        if weaker(id, last) {
            let init = ids.drop_last();
            assert(ramps(init)) by {
                assert forall|i: int, j: int| 0 <= i < j < init.len() implies !weaker(
                    #[trigger] init[j],
                    #[trigger] init[i],
                ) by {
                    assert(init[j] == ids[j] && init[i] == ids[i]);
                }
            }
            lemma_place_ramps(init, id);
            assert forall|j: int| 0 <= j < place(ids, id) implies !weaker(
                id,
                #[trigger] ids[j],
            ) by {
                assert(init[j] == ids[j]);
            }
            assert forall|j: int| place(ids, id) <= j < ids.len() implies !weaker(
                #[trigger] ids[j],
                id,
            ) by {
                if j < init.len() {
                    assert(init[j] == ids[j]);
                } else {
                    lemma_weaker_irreflexive(last);
                    lemma_weaker_between(id, last, last);
                }
            }
        } else {
            assert forall|j: int| 0 <= j < ids.len() implies !weaker(id, #[trigger] ids[j]) by {
                if weaker(id, ids[j]) {
                    let k = ids.len() - 1;
                    if j < k {
                        assert(!weaker(ids[k], ids[j]));
                        lemma_weaker_between(id, ids[j], last);
                    }
                }
            }
        }
    }
}

proof fn lemma_weaker_irreflexive(a: Seq<char>)
    ensures
        !weaker(a, a),
{
    text::lemma_lex_irreflexive(a);
}

/// A model's variants are shown from the weakest to the strongest, whatever
/// order they are described in, and none is lost or added.
pub proof fn variants_ramp_up(ids: Seq<Seq<char>>)
    ensures
        ramps(ramp(ids)),
        ramp(ids).to_multiset() == ids.to_multiset(),
        ramp(ids).len() == ids.len(),
    decreases ids.len(),
{
    if ids.len() == 0 {
        assert(ramp(ids) =~= ids);
    } else {
        let init = ramp(ids.drop_last());
        let id = ids.last();
        variants_ramp_up(ids.drop_last());
        lemma_place_ramps(init, id);
        let p = place(init, id);
        let out = init.insert(p, id);
        assert forall|i: int, j: int| 0 <= i < j < out.len() implies !weaker(
            #[trigger] out[j],
            #[trigger] out[i],
        ) by {
            let before = |k: int|
                if k < p {
                    k
                } else {
                    k - 1
                };
            if i != p {
                assert(out[i] == init[before(i)]);
            }
            if j != p {
                assert(out[j] == init[before(j)]);
            }
            if i != p && j != p {
                assert(!weaker(init[before(j)], init[before(i)]));
            }
        }
        vstd::seq_lib::to_multiset_insert(init, p, id);
        vstd::seq_lib::to_multiset_build(ids.drop_last(), id);
        assert(ids =~= ids.drop_last().push(id));
    }
}

/// The known variants come in the order of their strength.
pub proof fn known_variants_are_ordered(ids: Seq<Seq<char>>, i: int, j: int)
    requires
        0 <= i < j < ids.len(),
    ensures
        rank(ramp(ids)[i]) <= rank(ramp(ids)[j]),
{
    variants_ramp_up(ids);
    assert(!weaker(ramp(ids)[j], ramp(ids)[i]));
}

proof fn lemma_native_choices(ids: Seq<Seq<char>>)
    ensures
        forall|i: int|
            0 <= i < native_choices(ids).len() ==> (#[trigger] native_choices(ids)[i]).id
                != REASONING_DEFAULT_ID@ && ids.contains(native_choices(ids)[i].id),
        forall|id: Seq<char>|
            ids.contains(id) && id != REASONING_DEFAULT_ID@ ==> #[trigger] native_choices(
                ids,
            ).contains(plain_choice(id)),
    decreases ids.len(),
{
    if ids.len() > 0 {
        let init = ids.drop_last();
        let was = native_choices(init);
        let now = native_choices(ids);
        lemma_native_choices(init);
        assert forall|id: Seq<char>| init.contains(id) implies ids.contains(id) by {
            let k = choose|k: int| 0 <= k < init.len() && init[k] == id;
            assert(ids[k] == id);
        }
        assert(ids[ids.len() - 1] == ids.last());
        assert forall|i: int| 0 <= i < now.len() implies (#[trigger] now[i]).id
            != REASONING_DEFAULT_ID@ && ids.contains(now[i].id) by {
            if i < was.len() {
                assert(now[i] == was[i]);
            } else {
                assert(now[i].id == ids.last());
            }
        }
        assert forall|id: Seq<char>|
            ids.contains(id) && id != REASONING_DEFAULT_ID@ implies #[trigger] now.contains(
            plain_choice(id),
        ) by {
            let k = choose|k: int| 0 <= k < ids.len() && ids[k] == id;
            if k < init.len() {
                assert(init[k] == id);
                assert(was.contains(plain_choice(id)));
                let m = choose|m: int| 0 <= m < was.len() && was[m] == plain_choice(id);
                assert(now[m] == was[m]);
            } else {
                assert(now[now.len() - 1] == plain_choice(id));
            }
        }
    }
}

/// Every choice that a picker offers but the sentinel is sent to the agent as
/// it is, and every variant that was named is offered.
pub proof fn advertised_variants_map_back(ids: Seq<Seq<char>>, i: int, id: Seq<char>)
    requires
        0 <= i < reasoning_choices(ids).len(),
    ensures
        reasoning_choices(ids)[i].id != REASONING_DEFAULT_ID@ ==> ids.contains(
            reasoning_choices(ids)[i].id,
        ) && cards::variant_for(Some(reasoning_choices(ids)[i].id)) == Some(
            reasoning_choices(ids)[i].id,
        ),
        ids.contains(id) && id != REASONING_DEFAULT_ID@ ==> reasoning_choices(ids).contains(
            plain_choice(id),
        ),
{
    lemma_native_choices(ids);
    let all = reasoning_choices(ids);
    let native = native_choices(ids);
    if i > 0 {
        assert(all[i] == native[i - 1]);
    }
    if ids.contains(id) && id != REASONING_DEFAULT_ID@ {
        assert(native.contains(plain_choice(id)));
        let m = choose|m: int| 0 <= m < native.len() && native[m] == plain_choice(id);
        assert(all[m + 1] == plain_choice(id));
    }
}

/// The sentinel stands first in every picker and nowhere else, also where a
/// variant has its name.
pub proof fn the_sentinel_is_offered_once(ids: Seq<Seq<char>>, i: int)
    requires
        0 <= i < reasoning_choices(ids).len(),
    ensures
        (reasoning_choices(ids)[i].id == REASONING_DEFAULT_ID@) == (i == 0),
{
    lemma_native_choices(ids);
    if i > 0 {
        assert(reasoning_choices(ids)[i] == native_choices(ids)[i - 1]);
    }
}

/// A picker is hidden where a model names no variants, which is not the same
/// as saying nothing of variants.
pub proof fn no_variants_hide_the_picker(header: Seq<char>, doc: JsonV)
    ensures
        block_model(header, Some(doc)).levels is None <==> named_variants(doc) is None,
        block_model(header, Some(doc)).levels == Some(Seq::<ChoiceV>::empty()) <==> named_variants(
            doc,
        ) == Some(Seq::<Seq<char>>::empty()),
{
    match named_variants(doc) {
        Some(ids) => {
            variants_ramp_up(ids);
            if ids.len() == 0 {
                assert(ids =~= Seq::empty());
            } else {
                assert(reasoning_choices(ramp(ids)).len() > 0);
            }
        },
        None => {},
    }
}

/// A model that is announced with a block is never dropped: each gives one
/// model with its id, also where the block is no document.
pub proof fn announced_models_are_kept(out: Seq<char>, i: int)
    requires
        0 <= i < blocks(text::lines(out)).len(),
    ensures
        verbose_models(out).len() == blocks(text::lines(out)).len(),
        verbose_models(out)[i].id == blocks(text::lines(out))[i].0,
        native::parsed(blocks(text::lines(out))[i].1) is None ==> verbose_models(out)[i]
            == bare_model(blocks(text::lines(out))[i].0),
{
}

proof fn lemma_scan_append(s: Scan, a: Seq<char>, b: Seq<char>)
    ensures
        scan(s, a + b) == scan(scan(s, a), b),
    decreases b.len(),
{
    if b.len() == 0 {
        assert(a + b =~= a);
    } else {
        lemma_scan_append(s, a, b.drop_last());
        assert((a + b).drop_last() =~= a + b.drop_last());
        assert((a + b).last() == b.last());
    }
}

proof fn lemma_scan_inside(s: Scan, t: Seq<char>)
    requires
        s.in_str,
        !s.esc,
        !t.contains('"'),
        !t.contains('\\'),
    ensures
        scan(s, t) == s,
    decreases t.len(),
{
    if t.len() > 0 {
        let init = t.drop_last();
        assert forall|c: char| init.contains(c) implies t.contains(c) by {
            let k = choose|k: int| 0 <= k < init.len() && init[k] == c;
            assert(t[k] == c);
        }
        assert(t[t.len() - 1] == t.last());
        lemma_scan_inside(s, init);
    }
}

/// What stands in a string literal does not count: a line has the same depth
/// behind it with the literal as without it.
pub proof fn quoted_braces_do_not_count(
    depth: nat,
    before: Seq<char>,
    quoted: Seq<char>,
    behind: Seq<char>,
)
    requires
        !quoted.contains('"'),
        !quoted.contains('\\'),
        !scan(Scan { depth, in_str: false, esc: false }, before).in_str,
        !scan(Scan { depth, in_str: false, esc: false }, before).esc,
    ensures
        depth_after(depth, before + seq!['"'] + quoted + seq!['"'] + behind) == depth_after(
            depth,
            before + behind,
        ),
{
    let start = Scan { depth, in_str: false, esc: false };
    let outside = scan(start, before);
    let inside = Scan { in_str: true, ..outside };
    let q = seq!['"'];
    reveal_with_fuel(scan, 2);
    assert(q.drop_last() =~= Seq::empty());
    lemma_scan_append(start, before, q);
    lemma_scan_append(start, before + q, quoted);
    lemma_scan_inside(inside, quoted);
    lemma_scan_append(start, before + q + quoted, q);
    lemma_scan_append(start, before + q + quoted + q, behind);
    lemma_scan_append(start, before, behind);
}

/// The lines are one whole block: the braces balance at the last line and not
/// before.
pub open spec fn balanced(lines: Seq<Seq<char>>, depth: nat) -> bool
    decreases lines.len(),
{
    if lines.len() == 0 {
        false
    } else if lines.len() == 1 {
        depth_after(depth, lines[0]) == 0
    } else {
        depth_after(depth, lines[0]) != 0 && balanced(
            lines.drop_first(),
            depth_after(depth, lines[0]),
        )
    }
}

proof fn lemma_balanced(block: Seq<Seq<char>>, rest: Seq<Seq<char>>, depth: nat)
    requires
        balanced(block, depth),
    ensures
        block_len(block + rest, depth) == block.len(),
    decreases block.len(),
{
    assert((block + rest)[0] == block[0]);
    assert((block + rest).drop_first() =~= block.drop_first() + rest);
    if block.len() > 1 {
        lemma_balanced(block.drop_first(), rest, depth_after(depth, block[0]));
    }
}

/// A whole block swallows nothing: the models behind it are all found.
pub proof fn models_behind_a_block_are_found(
    header: Seq<char>,
    block: Seq<Seq<char>>,
    rest: Seq<Seq<char>>,
)
    requires
        is_header(header),
        balanced(block, 0),
        opens_block(block[0]),
    ensures
        blocks(seq![header] + block + rest) == seq![(text::trim(header), block_text(block))]
            + blocks(rest),
{
    let lines = seq![header] + block + rest;
    lemma_balanced(block, rest, 0);
    assert(lines.drop_first() =~= block + rest);
    assert((block + rest).take(block.len() as int) =~= block);
    assert(lines.skip(1 + block.len() as int) =~= rest);
    assert(lines[1] == block[0]);
}

proof fn lemma_names()
    ensures
        "none"@ != "minimal"@,
        "none"@ != "low"@,
        "none"@ != "medium"@,
        "none"@ != "high"@,
        "none"@ != "xhigh"@,
        "none"@ != "max"@,
        "minimal"@ != "low"@,
        "minimal"@ != "medium"@,
        "minimal"@ != "high"@,
        "minimal"@ != "xhigh"@,
        "minimal"@ != "max"@,
        "low"@ != "medium"@,
        "low"@ != "high"@,
        "low"@ != "xhigh"@,
        "low"@ != "max"@,
        "medium"@ != "high"@,
        "medium"@ != "xhigh"@,
        "medium"@ != "max"@,
        "high"@ != "xhigh"@,
        "high"@ != "max"@,
        "xhigh"@ != "max"@,
{
    reveal_strlit("none");
    reveal_strlit("minimal");
    reveal_strlit("low");
    reveal_strlit("medium");
    reveal_strlit("high");
    reveal_strlit("xhigh");
    reveal_strlit("max");
    assert("none"@.len() != "minimal"@.len());
    assert("none"@.len() != "low"@.len());
    assert("none"@.len() != "medium"@.len());
    assert("none"@[0] != "high"@[0]);
    assert("none"@.len() != "xhigh"@.len());
    assert("none"@.len() != "max"@.len());
    assert("minimal"@.len() != "low"@.len());
    assert("minimal"@.len() != "medium"@.len());
    assert("minimal"@.len() != "high"@.len());
    assert("minimal"@.len() != "xhigh"@.len());
    assert("minimal"@.len() != "max"@.len());
    assert("low"@.len() != "medium"@.len());
    assert("low"@.len() != "high"@.len());
    assert("low"@.len() != "xhigh"@.len());
    assert("low"@[0] != "max"@[0]);
    assert("medium"@.len() != "high"@.len());
    assert("medium"@.len() != "xhigh"@.len());
    assert("medium"@.len() != "max"@.len());
    assert("high"@.len() != "xhigh"@.len());
    assert("high"@.len() != "max"@.len());
    assert("xhigh"@.len() != "max"@.len());
}

/// The known variants by their strength: none, minimal, low, medium, high,
/// extra high, most. A variant that is not known comes behind them, and two
/// such by their names.
pub proof fn strengths_are_ordered(id: Seq<char>, other: Seq<char>)
    ensures
        ({
            let known = |v: Seq<char>|
                v == "none"@ || v == "minimal"@ || v == "low"@ || v == "medium"@ || v == "high"@ || v
                    == "xhigh"@ || v == "max"@;
            &&& weaker("none"@, "minimal"@)
            &&& weaker("minimal"@, "low"@)
            &&& weaker("low"@, "medium"@)
            &&& weaker("medium"@, "high"@)
            &&& weaker("high"@, "xhigh"@)
            &&& weaker("xhigh"@, "max"@)
            &&& known(id) && !known(other) ==> weaker(id, other) && !weaker(other, id)
            &&& !known(id) && !known(other) ==> (weaker(id, other) <==> text::lex_less(id, other))
        }),
{
    lemma_names();
}

/// A picker's choices keep the order of the variants, each named by itself.
pub proof fn choices_keep_the_order(ids: Seq<Seq<char>>, id: Seq<char>)
    ensures
        id != "default"@ ==> native_choices(ids.push(id)) == native_choices(ids).push(
            ChoiceV { id, label: id, description: None },
        ),
        native_choices(ids.push("default"@)) == native_choices(ids),
        ids.len() > 0 ==> reasoning_choices(ids) == seq![
            (ChoiceV { id: "default"@, label: "default"@, description: None }),
        ] + native_choices(ids),
        reasoning_choices(Seq::empty()) == Seq::<ChoiceV>::empty(),
{
    assert(ids.push(id).drop_last() =~= ids);
    assert(ids.push("default"@).drop_last() =~= ids);
}

/// The ids of a plain listing are its lines with a slash, without the white
/// space around them, in order; any other line is passed over.
pub proof fn listed_lines_are_ids(lines: Seq<Seq<char>>, line: Seq<char>, id: Seq<char>)
    ensures
        ({
            let more = listed_ids(lines.push(line));
            let plain = id.len() > 0 && !text::is_white(id[0]) && !text::is_white(id.last());
            &&& line == id && plain && id.contains('/') ==> more == listed_ids(lines).push(id)
            &&& !line.contains('/') ==> more == listed_ids(lines)
            &&& listed_ids(Seq::empty()) == Seq::<Seq<char>>::empty()
        }),
{
    assert(lines.push(line).drop_last() =~= lines);
    if id.len() > 0 && !text::is_white(id[0]) && !text::is_white(id.last()) {
        text::trimmed_texts_stay(id);
    }
    if !line.contains('/') {
        let (i, j) = text::trimming_takes_white_space_only(line);
        let t = text::trim(line);
        if t.contains('/') {
            let k = choose|k: int| 0 <= k < t.len() && t[k] == '/';
            assert(line[i + k] == '/');
        }
    }
}

/// The provider of a model is what stands before the first slash of its id.
pub proof fn ids_begin_with_their_provider(provider: Seq<char>, rest: Seq<char>)
    requires
        !provider.contains('/'),
    ensures
        provider_of(provider + seq!['/'] + rest) == provider,
        provider_of(provider) == provider,
{
    let full = provider + seq!['/'] + rest;
    text::splits_read_back(full, '/');
    text::splits_read_back(provider, '/');
    let n = provider.len() as int;
    assert(full[n] == '/');
    assert(full.contains('/'));
    let (a, b) = text::split_once(full, '/')->0;
    let m = a.len() as int;
    assert(full[m] == '/');
    if m < n {
        assert(provider[m] == '/');
    }
    if n < m {
        assert(a[n] == '/');
    }
    assert(a =~= full.take(m));
    assert(provider =~= full.take(n));
    if text::split_once(provider, '/') is Some {
        let (x, y) = text::split_once(provider, '/')->0;
        assert(provider[x.len() as int] == '/');
    }
}

/// What a block says of its model: the name, and the variants that it names as
/// the keys of an object or the items of an array, from the weakest to the
/// strongest. The model's id is what announced it.
pub proof fn blocks_describe_their_model(
    header: Seq<char>,
    doc: JsonV,
    entries: Seq<(Seq<char>, JsonV)>,
    items: Seq<JsonV>,
    i: int,
    id: Seq<char>,
)
    ensures
        ({
            let model = block_model(header, Some(doc));
            let offered = model.levels matches Some(levels) && exists|k: int|
                0 <= k < levels.len() && (#[trigger] levels[k]).id == id;
            &&& model.id == header
            &&& model.display_name == doc.str_at("name"@)
            &&& doc.get("variants"@) is None ==> model.levels is None
            &&& doc.get("variants"@) == Some(JsonV::Object(entries)) && 0 <= i < entries.len()
                && entries[i].0 == id ==> offered
            &&& doc.get("variants"@) == Some(JsonV::Array(items)) && 0 <= i < items.len()
                && items[i] == JsonV::Str(id) ==> offered
        }),
{
    let model = block_model(header, Some(doc));
    if doc.get("variants"@) == Some(JsonV::Object(entries)) && 0 <= i < entries.len()
        && entries[i].0 == id {
        let ids = keys_of(entries);
        assert(ids[i] == id);
        lemma_offered(ids, id);
        let levels = model.levels->0;
        assert(levels == reasoning_choices(ramp(ids)));
        let k = choose|k: int|
            0 <= k < reasoning_choices(ramp(ids)).len() && (#[trigger] reasoning_choices(
                ramp(ids),
            )[k]).id == id;
        assert(levels[k].id == id);
    }
    if doc.get("variants"@) == Some(JsonV::Array(items)) && 0 <= i < items.len() && items[i]
        == JsonV::Str(id) {
        lemma_strings(items, i, id);
        let ids = strings_of(items);
        lemma_offered(ids, id);
        let levels = model.levels->0;
        assert(levels == reasoning_choices(ramp(ids)));
        let k = choose|k: int|
            0 <= k < reasoning_choices(ramp(ids)).len() && (#[trigger] reasoning_choices(
                ramp(ids),
            )[k]).id == id;
        assert(levels[k].id == id);
    }
}

proof fn lemma_strings(items: Seq<JsonV>, i: int, id: Seq<char>)
    requires
        0 <= i < items.len(),
        items[i] == JsonV::Str(id),
    ensures
        strings_of(items).contains(id),
    decreases items.len(),
{
    let init = items.drop_last();
    let all = strings_of(items);
    if i == items.len() - 1 {
        assert(all[all.len() - 1] == id);
    } else {
        assert(init[i] == items[i]);
        lemma_strings(init, i, id);
        let k = choose|k: int| 0 <= k < strings_of(init).len() && strings_of(init)[k] == id;
        assert(all[k] == id);
    }
}

proof fn lemma_offered(ids: Seq<Seq<char>>, id: Seq<char>)
    requires
        ids.contains(id),
    ensures
        exists|k: int|
            0 <= k < reasoning_choices(ramp(ids)).len() && (#[trigger] reasoning_choices(
                ramp(ids),
            )[k]).id == id,
{
    variants_ramp_up(ids);
    let all = ramp(ids);
    ids.to_multiset_ensures();
    all.to_multiset_ensures();
    assert(ids.to_multiset().count(id) > 0);
    assert(all.contains(id));
    let offer = reasoning_choices(all);
    if id == REASONING_DEFAULT_ID@ {
        assert(offer[0].id == id);
    } else {
        advertised_variants_map_back(all, 0, id);
        let k = choose|k: int| 0 <= k < offer.len() && offer[k] == plain_choice(id);
        assert(offer[k].id == id);
    }
}

proof fn lemma_no_quote(s: Scan, t: Seq<char>)
    requires
        !s.in_str,
        !s.esc,
        !t.contains('"'),
    ensures
        !scan(s, t).in_str,
        !scan(s, t).esc,
    decreases t.len(),
{
    if t.len() > 0 {
        let init = t.drop_last();
        if init.contains('"') {
            let k = choose|k: int| 0 <= k < init.len() && init[k] == '"';
            assert(t[k] == '"');
        }
        lemma_no_quote(s, init);
        assert(t[t.len() - 1] == t.last());
    }
}

/// Outside string literals a brace opens or closes a block, and nothing else
/// does; a block that is not open cannot be closed.
pub proof fn braces_open_and_close(depth: nat, line: Seq<char>, c: char)
    requires
        !line.contains('"'),
    ensures
        depth_after(depth, line.push('{')) == depth_after(depth, line) + 1,
        depth_after(depth, line) > 0 ==> depth_after(depth, line.push('}')) + 1 == depth_after(
            depth,
            line,
        ),
        depth_after(depth, line) == 0 ==> depth_after(depth, line.push('}')) == 0,
        c != '{' && c != '}' ==> depth_after(depth, line.push(c)) == depth_after(depth, line),
        depth_after(depth, Seq::empty()) == depth,
{
    let s = Scan { depth, in_str: false, esc: false };
    lemma_no_quote(s, line);
    assert(line.push('{').drop_last() =~= line);
    assert(line.push('}').drop_last() =~= line);
    assert(line.push(c).drop_last() =~= line);
}

/// The text of a block is its lines as they were: it reads back line by line.
pub proof fn blocks_read_back(block: Seq<Seq<char>>)
    requires
        forall|i: int| 0 <= i < block.len() ==> text::is_line(#[trigger] block[i]),
    ensures
        text::lines(block_text(block)) == block,
{
    lemma_block_listing(block);
    let none = Seq::<char>::empty();
    text::lines_read_back(block, none);
    assert(text::listing(block, seq!['\n']) + none =~= text::listing(block, seq!['\n']));
}

proof fn lemma_block_listing(block: Seq<Seq<char>>)
    ensures
        block_text(block) == text::listing(block, seq!['\n']),
    decreases block.len(),
{
    if block.len() > 0 {
        let init = block.drop_last();
        lemma_block_listing(init);
        lemma_listing_push(init, block.last());
        assert(init.push(block.last()) =~= block);
    }
}

proof fn lemma_listing_push(all: Seq<Seq<char>>, line: Seq<char>)
    ensures
        text::listing(all.push(line), seq!['\n']) == text::listing(all, seq!['\n']) + line + seq![
            '\n',
        ],
    decreases all.len(),
{
    let nl = seq!['\n'];
    let more = all.push(line);
    if all.len() == 0 {
        reveal_with_fuel(text::listing, 2);
        assert(more.drop_first() =~= Seq::empty());
        assert(text::listing(more, nl) =~= text::listing(all, nl) + line + nl);
    } else {
        lemma_listing_push(all.drop_first(), line);
        assert(more.drop_first() =~= all.drop_first().push(line));
        assert(more[0] == all[0]);
        assert(text::listing(more, nl) =~= text::listing(all, nl) + line + nl);
    }
}

/// What is escaped in a string literal, be it a quote, stays in it: a line has
/// the same depth behind it with such a literal as without it.
pub proof fn escaped_quotes_stay_inside(
    depth: nat,
    before: Seq<char>,
    a: Seq<char>,
    c: char,
    b: Seq<char>,
    behind: Seq<char>,
)
    requires
        !before.contains('"'),
        !a.contains('"'),
        !a.contains('\\'),
        !b.contains('"'),
        !b.contains('\\'),
    ensures
        depth_after(
            depth,
            before + seq!['"'] + a + seq!['\\', c] + b + seq!['"'] + behind,
        ) == depth_after(depth, before + behind),
{
    let start = Scan { depth, in_str: false, esc: false };
    lemma_no_quote(start, before);
    let outside = scan(start, before);
    let inside = Scan { in_str: true, ..outside };
    let q = seq!['"'];
    let e = seq!['\\', c];
    reveal_with_fuel(scan, 3);
    assert(q.drop_last() =~= Seq::empty());
    assert(e.drop_last() =~= seq!['\\']);
    assert(seq!['\\'].drop_last() =~= Seq::empty());
    lemma_scan_append(start, before, q);
    lemma_scan_append(start, before + q, a);
    lemma_scan_inside(inside, a);
    lemma_scan_append(start, before + q + a, e);
    assert(scan(inside, e) == inside);
    lemma_scan_append(start, before + q + a + e, b);
    lemma_scan_inside(inside, b);
    lemma_scan_append(start, before + q + a + e + b, q);
    lemma_scan_append(start, before + q + a + e + b + q, behind);
    lemma_scan_append(start, before, behind);
}

proof fn lemma_all_ids(ids: Seq<Seq<char>>)
    requires
        forall|i: int|
            0 <= i < ids.len() ==> (#[trigger] ids[i]).contains('/') && !text::is_white(ids[i][0])
                && !text::is_white(ids[i].last()),
    ensures
        listed_ids(ids) == ids,
    decreases ids.len(),
{
    if ids.len() > 0 {
        let init = ids.drop_last();
        let id = ids.last();
        assert(ids[ids.len() - 1].contains('/'));
        assert forall|i: int| 0 <= i < init.len() implies (#[trigger] init[i]).contains('/')
            && !text::is_white(init[i][0]) && !text::is_white(init[i].last()) by {
            assert(init[i] == ids[i]);
        }
        lemma_all_ids(init);
        listed_lines_are_ids(init, id, id);
        assert(init.push(id) =~= ids);
    } else {
        assert(listed_ids(ids) =~= ids);
    }
}

/// A plain listing is read back: each id that was listed gives a model, in
/// order, of which nothing else is known.
pub proof fn plain_listings_read_back(ids: Seq<Seq<char>>)
    requires
        forall|i: int|
            0 <= i < ids.len() ==> (#[trigger] ids[i]).contains('/') && !text::is_white(ids[i][0])
                && !text::is_white(ids[i].last()) && text::is_line(ids[i]),
    ensures
        ({
            let models = plain_listing(Some(text::listing(ids, seq!['\n'])));
            &&& models.len() == ids.len()
            &&& forall|i: int|
                0 <= i < ids.len() ==> (#[trigger] models[i]) == (ModelV {
                    id: ids[i],
                    display_name: None,
                    description: None,
                    levels: None,
                })
            &&& plain_listing(None).len() == 0
        }),
{
    let none = Seq::<char>::empty();
    let out = text::listing(ids, seq!['\n']);
    text::lines_read_back(ids, none);
    assert(out + none =~= out);
    lemma_all_ids(ids);
}

/// A verbose listing that announces no model is no catalog, so that the plain
/// one is asked for; any other is the catalog.
pub proof fn empty_listings_are_no_catalog(out: Seq<char>)
    ensures
        verbose_listing(None) is None,
        blocks(text::lines(out)).len() == 0 ==> verbose_listing(Some(out)) is None,
        blocks(text::lines(out)).len() > 0 ==> verbose_listing(Some(out)) == Some(
            verbose_models(out),
        ),
{
}

/// A line with a slash announces a model, unless it begins with a brace, which
/// opens a block, whatever white space stands before it.
pub proof fn braces_open_blocks(blank: char, line: Seq<char>)
    requires
        line.len() > 0,
        !text::is_white(line[0]),
        !text::is_white(line.last()),
        text::is_white(blank),
    ensures
        line[0] == '{' ==> opens_block(line) && opens_block(seq![blank] + line) && !is_header(line),
        line[0] != '{' ==> !opens_block(line) && (is_header(line) <==> line.contains('/')),
{
    text::trimmed_texts_stay(line);
    let s = seq![blank] + line;
    assert(s.drop_first() =~= line);
    assert(text::trim_start(s) == text::trim_start(line));
}

} // verus!
