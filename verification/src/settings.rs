//! Settings: their sources, how the sources are merged, and where a value came from.

use vstd::prelude::*;
use vstd::string::*;
use crate::json::{group_json, Json, JsonView};
use crate::seqs::{opt_text, texts, views};
use crate::table::{
    distinct, has_key, lemma_lookup_put, lemma_position, lemma_push_all_new, lookup, position,
    push_all_new, push_new, put, Dup, NameSet, Table,
};
use crate::text::{
    comma_items, debug_text, decimal, dup_list, dup_opt, joined, lower_case, parse_unsigned,
    quoted_debug, replaced_char, same, show_usize, split_commas, starts, starts_with, to_lower,
    unsigned_value,
};

verus! {

broadcast use crate::seqs::group_text;

/// A value that a source gives for a setting.
pub enum SettingValue {
    Bool(bool),
    Usize(usize),
    U8(u8),
    String(String),
    Path(String),
    StringList(NameSet),
}

/// What [`SettingValue`] stands for.
pub enum SettingValueView {
    Bool(bool),
    Usize(usize),
    U8(u8),
    String(Seq<char>),
    Path(Seq<char>),
    StringList(Seq<Seq<char>>),
}

impl View for SettingValue {
    type V = SettingValueView;

    open spec fn view(&self) -> SettingValueView {
        match self {
            SettingValue::Bool(x) => SettingValueView::Bool(*x),
            SettingValue::Usize(x) => SettingValueView::Usize(*x),
            SettingValue::U8(x) => SettingValueView::U8(*x),
            SettingValue::String(x) => SettingValueView::String(x@),
            SettingValue::Path(x) => SettingValueView::Path(x@),
            SettingValue::StringList(x) => SettingValueView::StringList(x@),
        }
    }
}

impl Dup for SettingValue {
    fn dup(&self) -> (r: Self) {
        match self {
            SettingValue::Bool(x) => SettingValue::Bool(*x),
            SettingValue::Usize(x) => SettingValue::Usize(*x),
            SettingValue::U8(x) => SettingValue::U8(*x),
            SettingValue::String(x) => SettingValue::String(x.clone()),
            SettingValue::Path(x) => SettingValue::Path(x.clone()),
            SettingValue::StringList(x) => SettingValue::StringList(x.dup()),
        }
    }
}

/// A value of a field of the merged settings.
pub enum FieldValue {
    Null,
    Bool(bool),
    Number(usize),
    Text(String),
    List(Vec<String>),
}

/// What [`FieldValue`] stands for.
pub enum FieldValueView {
    Null,
    Bool(bool),
    Number(usize),
    Text(Seq<char>),
    List(Seq<Seq<char>>),
}

impl View for FieldValue {
    type V = FieldValueView;

    open spec fn view(&self) -> FieldValueView {
        match self {
            FieldValue::Null => FieldValueView::Null,
            FieldValue::Bool(x) => FieldValueView::Bool(*x),
            FieldValue::Number(x) => FieldValueView::Number(*x),
            FieldValue::Text(x) => FieldValueView::Text(x@),
            FieldValue::List(x) => FieldValueView::List(texts(x@)),
        }
    }
}

impl Dup for FieldValue {
    fn dup(&self) -> (r: Self) {
        match self {
            FieldValue::Null => FieldValue::Null,
            FieldValue::Bool(x) => FieldValue::Bool(*x),
            FieldValue::Number(x) => FieldValue::Number(*x),
            FieldValue::Text(x) => FieldValue::Text(x.clone()),
            FieldValue::List(x) => FieldValue::List(dup_list(x)),
        }
    }
}

/// Where a setting got its value from.
#[derive(Clone, Copy, Debug, PartialEq, Eq, Structural)]
pub enum SettingSource {
    Defaults,
    Pkl,
    Git,
    Env,
    Cli,
}

/// What is known of a setting: its type, how sources combine, its default and its names in each source.
pub struct SettingMeta {
    pub typ: String,
    pub merge: Option<String>,
    pub default_value: Option<String>,
    pub cli: Vec<String>,
    pub env: Vec<String>,
    pub git: Vec<String>,
    pub pkl: Vec<String>,
}

/// What [`SettingMeta`] stands for.
pub struct SettingMetaView {
    pub typ: Seq<char>,
    pub merge: Option<Seq<char>>,
    pub default_value: Option<Seq<char>>,
    pub cli: Seq<Seq<char>>,
    pub env: Seq<Seq<char>>,
    pub git: Seq<Seq<char>>,
    pub pkl: Seq<Seq<char>>,
}

impl View for SettingMeta {
    type V = SettingMetaView;

    open spec fn view(&self) -> SettingMetaView {
        SettingMetaView {
            typ: self.typ@,
            merge: opt_text(self.merge),
            default_value: opt_text(self.default_value),
            cli: texts(self.cli@),
            env: texts(self.env@),
            git: texts(self.git@),
            pkl: texts(self.pkl@),
        }
    }
}

impl Dup for SettingMeta {
    fn dup(&self) -> (r: Self) {
        SettingMeta {
            typ: self.typ.clone(),
            merge: dup_opt(&self.merge),
            default_value: dup_opt(&self.default_value),
            cli: dup_list(&self.cli),
            env: dup_list(&self.env),
            git: dup_list(&self.git),
            pkl: dup_list(&self.pkl),
        }
    }
}

/// Sources combine into a union of their lists.
pub open spec fn is_union(meta: SettingMetaView) -> bool {
    meta.merge == Some("union"@)
}

/// The type of the setting is a list of strings.
pub open spec fn is_list(meta: SettingMetaView) -> bool {
    starts(meta.typ, "list<string>"@)
}

impl SettingMeta {
    fn merges_union(&self) -> (r: bool)
        ensures
            r == is_union(self@),
    {
        match &self.merge {
            Some(m) => same(m.as_str(), "union"),
            None => false,
        }
    }

    fn holds_list(&self) -> (r: bool)
        ensures
            r == is_list(self@),
    {
        starts_with(self.typ.as_str(), "list<string>")
    }
}

/// A source value as a field of the merged settings.
pub open spec fn field_of(v: SettingValueView) -> FieldValueView {
    match v {
        SettingValueView::Bool(b) => FieldValueView::Bool(b),
        SettingValueView::Usize(n) => FieldValueView::Number(n),
        SettingValueView::U8(n) => FieldValueView::Number(n as usize),
        SettingValueView::String(s) => FieldValueView::Text(s),
        SettingValueView::Path(p) => FieldValueView::Text(p),
        SettingValueView::StringList(l) => FieldValueView::List(l),
    }
}

/// The list that a field holds now, empty where it holds none.
pub open spec fn current_list(
    fields: Seq<(Seq<char>, FieldValueView)>,
    field: Seq<char>,
) -> Seq<Seq<char>> {
    match lookup(fields, field) {
        Some(FieldValueView::List(l)) => push_all_new(seq![], l),
        _ => seq![],
    }
}

/// The fields after one source has had its say on one setting.
pub open spec fn layered(
    fields: Seq<(Seq<char>, FieldValueView)>,
    field: Seq<char>,
    union: bool,
    source: Seq<(Seq<char>, SettingValueView)>,
) -> Seq<(Seq<char>, FieldValueView)> {
    match lookup(source, field) {
        None => fields,
        Some(SettingValueView::StringList(l)) => if union {
            put(fields, field, FieldValueView::List(push_all_new(current_list(fields, field), l)))
        } else {
            put(fields, field, FieldValueView::List(l))
        },
        Some(v) => put(fields, field, field_of(v)),
    }
}

/// The sources, from the one that yields to all others upwards.
pub struct Sources {
    pub pkl: Seq<(Seq<char>, SettingValueView)>,
    pub git: Seq<(Seq<char>, SettingValueView)>,
    pub env: Seq<(Seq<char>, SettingValueView)>,
    pub cli: Seq<(Seq<char>, SettingValueView)>,
}

/// The fields after every source has had its say on one setting.
pub open spec fn all_layered(
    fields: Seq<(Seq<char>, FieldValueView)>,
    field: Seq<char>,
    union: bool,
    s: Sources,
) -> Seq<(Seq<char>, FieldValueView)> {
    layered(
        layered(layered(layered(fields, field, union, s.pkl), field, union, s.git), field, union, s.env),
        field,
        union,
        s.cli,
    )
}

/// The fields after every source has had its say on every setting.
pub open spec fn merged_fields(
    meta: Seq<(Seq<char>, SettingMetaView)>,
    defaults: Seq<(Seq<char>, FieldValueView)>,
    s: Sources,
) -> Seq<(Seq<char>, FieldValueView)>
    decreases meta.len(),
{
    if meta.len() == 0 {
        defaults
    } else {
        all_layered(
            merged_fields(meta.drop_last(), defaults, s),
            meta.last().0,
            is_union(meta.last().1),
            s,
        )
    }
}

fn to_field(v: &SettingValue) -> (r: FieldValue)
    ensures
        r@ == field_of(v@),
{
    match v {
        SettingValue::Bool(b) => FieldValue::Bool(*b),
        SettingValue::Usize(n) => FieldValue::Number(*n),
        SettingValue::U8(n) => FieldValue::Number(*n as usize),
        SettingValue::String(s) => FieldValue::Text(s.clone()),
        SettingValue::Path(p) => FieldValue::Text(p.clone()),
        SettingValue::StringList(l) => FieldValue::List(l.to_list()),
    }
}

fn list_now(fields: &Table<FieldValue>, field: &str) -> (r: NameSet)
    ensures
        r@ == current_list(fields@, field@),
{
    match fields.get(field) {
        Some(FieldValue::List(l)) => NameSet::of(l),
        _ => NameSet::new(),
    }
}

/// Lets one source have its say on one setting.
fn apply_layer(
    fields: &mut Table<FieldValue>,
    field: &str,
    union: bool,
    source: &Table<SettingValue>,
)
    ensures
        final(fields)@ == layered(old(fields)@, field@, union, source@),
{
    match source.get(field) {
        None => {},
        Some(v) => {
            match v {
                SettingValue::StringList(l) => {
                    if union {
                        let mut current = list_now(fields, field);
                        current.extend(l);
                        fields.insert(field.to_owned(), FieldValue::List(current.to_list()));
                    } else {
                        fields.insert(field.to_owned(), FieldValue::List(l.to_list()));
                    }
                },
                _ => {
                    fields.insert(field.to_owned(), to_field(v));
                },
            }
        },
    }
}

/// Merges the sources over the defaults: what a command line says wins over the
/// environment, that over git, that over the project's configuration, and
/// that over the defaults; settings that combine collect the lists of all.
pub fn merge_fields(
    meta: &Table<SettingMeta>,
    defaults: &Table<FieldValue>,
    env: &Table<SettingValue>,
    git: &Table<SettingValue>,
    pkl: &Table<SettingValue>,
    cli: &Table<SettingValue>,
) -> (r: Table<FieldValue>)
    ensures
        r@ == merged_fields(
            meta@,
            defaults@,
            (Sources { pkl: pkl@, git: git@, env: env@, cli: cli@ }),
        ),
{
    let mut fields = defaults.dup();
    let ghost s = Sources { pkl: pkl@, git: git@, env: env@, cli: cli@ };
    let n: usize = meta.len();
    for i in 0..n
        invariant
            n == meta@.len(),
            s == (Sources { pkl: pkl@, git: git@, env: env@, cli: cli@ }),
            fields@ == merged_fields(meta@.take(i as int), defaults@, s),
    {
        let field = meta.key_at(i).as_str();
        let union = meta.value_at(i).merges_union();
        apply_layer(&mut fields, field, union, pkl);
        apply_layer(&mut fields, field, union, git);
        apply_layer(&mut fields, field, union, env);
        apply_layer(&mut fields, field, union, cli);
    }
    assert(meta@.take(n as int) =~= meta@);
    fields
}

/// The value of a setting that sources replace: that of the highest source
/// that gives one, else the default.
pub open spec fn winning(
    s: Sources,
    defaults: Seq<(Seq<char>, FieldValueView)>,
    field: Seq<char>,
) -> Option<FieldValueView> {
    match lookup(s.cli, field) {
        Some(v) => Some(field_of(v)),
        None => match lookup(s.env, field) {
            Some(v) => Some(field_of(v)),
            None => match lookup(s.git, field) {
                Some(v) => Some(field_of(v)),
                None => match lookup(s.pkl, field) {
                    Some(v) => Some(field_of(v)),
                    None => lookup(defaults, field),
                },
            },
        },
    }
}

proof fn lemma_layered(
    fields: Seq<(Seq<char>, FieldValueView)>,
    field: Seq<char>,
    union: bool,
    source: Seq<(Seq<char>, SettingValueView)>,
    x: Seq<char>,
)
    ensures
        x != field ==> lookup(layered(fields, field, union, source), x) == lookup(fields, x),
        x == field && !union && lookup(source, field) is Some ==> lookup(
            layered(fields, field, union, source),
            x,
        ) == Some(field_of(lookup(source, field)->0)),
{
    match lookup(source, field) {
        None => {},
        Some(SettingValueView::StringList(l)) => {
            lemma_lookup_put(
                fields,
                field,
                FieldValueView::List(push_all_new(current_list(fields, field), l)),
                x,
            );
            lemma_lookup_put(fields, field, FieldValueView::List(l), x);
        },
        Some(v) => {
            lemma_lookup_put(fields, field, field_of(v), x);
        },
    }
}

proof fn lemma_all_layered(
    fields: Seq<(Seq<char>, FieldValueView)>,
    field: Seq<char>,
    union: bool,
    s: Sources,
    x: Seq<char>,
)
    ensures
        x != field ==> lookup(all_layered(fields, field, union, s), x) == lookup(fields, x),
        x == field && !union ==> lookup(all_layered(fields, field, union, s), x) == winning(
            s,
            fields,
            field,
        ),
{
    let f1 = layered(fields, field, union, s.pkl);
    let f2 = layered(f1, field, union, s.git);
    let f3 = layered(f2, field, union, s.env);
    lemma_layered(fields, field, union, s.pkl, x);
    lemma_layered(f1, field, union, s.git, x);
    lemma_layered(f2, field, union, s.env, x);
    lemma_layered(f3, field, union, s.cli, x);
}

proof fn lemma_merged_untouched(
    meta: Seq<(Seq<char>, SettingMetaView)>,
    defaults: Seq<(Seq<char>, FieldValueView)>,
    s: Sources,
    x: Seq<char>,
)
    requires
        forall|i: int| 0 <= i < meta.len() ==> (#[trigger] meta[i]).0 != x,
    ensures
        lookup(merged_fields(meta, defaults, s), x) == lookup(defaults, x),
    decreases meta.len(),
{
    if meta.len() > 0 {
        let init = meta.drop_last();
        assert forall|i: int| 0 <= i < init.len() implies (#[trigger] init[i]).0 != x by {
            assert(init[i] == meta[i]);
        }
        lemma_merged_untouched(init, defaults, s, x);
        assert(meta[meta.len() - 1].0 != x);
        lemma_all_layered(
            merged_fields(init, defaults, s),
            meta.last().0,
            is_union(meta.last().1),
            s,
            x,
        );
    }
}

/// A setting that sources replace has the value of the highest source that
/// gives one: command line, environment, git, project configuration, defaults.
pub proof fn law_highest_source_wins(
    meta: Seq<(Seq<char>, SettingMetaView)>,
    defaults: Seq<(Seq<char>, FieldValueView)>,
    s: Sources,
    field: Seq<char>,
)
    requires
        distinct(meta),
        has_key(meta, field),
        !is_union(lookup(meta, field)->0),
    ensures
        lookup(merged_fields(meta, defaults, s), field) == winning(s, defaults, field),
    decreases meta.len(),
{
    let init = meta.drop_last();
    let last = meta.last();
    lemma_position(meta, field);
    assert forall|i: int| 0 <= i < init.len() && last.0 == field implies (#[trigger] init[i]).0
        != field by {
        assert(init[i] == meta[i]);
        assert(meta[i].0 != meta[meta.len() - 1].0);
    }
    lemma_all_layered(merged_fields(init, defaults, s), last.0, is_union(last.1), s, field);
    if last.0 == field {
        lemma_merged_untouched(init, defaults, s, field);
    } else {
        assert(distinct(init)) by {
            assert forall|i: int, j: int| 0 <= i < j < init.len() implies init[i].0 != init[j].0 by {
                assert(meta[i].0 != meta[j].0);
            }
        }
        law_highest_source_wins(init, defaults, s, field);
    }
}

/// The list that a source gives for a setting, empty where it gives none.
pub open spec fn source_list(
    source: Seq<(Seq<char>, SettingValueView)>,
    field: Seq<char>,
) -> Seq<Seq<char>> {
    match lookup(source, field) {
        Some(SettingValueView::StringList(l)) => l,
        _ => seq![],
    }
}

/// A source gives a list for the setting, or nothing.
pub open spec fn lists_only(source: Seq<(Seq<char>, SettingValueView)>, field: Seq<char>) -> bool {
    match lookup(source, field) {
        None => true,
        Some(SettingValueView::StringList(_)) => true,
        Some(_) => false,
    }
}

proof fn lemma_layered_union(
    fields: Seq<(Seq<char>, FieldValueView)>,
    field: Seq<char>,
    source: Seq<(Seq<char>, SettingValueView)>,
    item: Seq<char>,
)
    requires
        lists_only(source, field),
    ensures
        current_list(layered(fields, field, true, source), field).contains(item) <==> (current_list(
            fields,
            field,
        ).contains(item) || source_list(source, field).contains(item)),
{
    match lookup(source, field) {
        Some(SettingValueView::StringList(l)) => {
            let now = current_list(fields, field);
            let new = push_all_new(now, l);
            lemma_lookup_put(fields, field, FieldValueView::List(new), field);
            lemma_push_all_new(now, l);
            lemma_push_all_new(seq![], new);
        },
        _ => {},
    }
}

/// A setting whose sources combine holds an item exactly when the defaults or
/// some source holds it.
pub proof fn law_union_collects_every_source(
    meta: Seq<(Seq<char>, SettingMetaView)>,
    defaults: Seq<(Seq<char>, FieldValueView)>,
    s: Sources,
    field: Seq<char>,
    item: Seq<char>,
)
    requires
        distinct(meta),
        has_key(meta, field),
        is_union(lookup(meta, field)->0),
        lists_only(s.pkl, field),
        lists_only(s.git, field),
        lists_only(s.env, field),
        lists_only(s.cli, field),
    ensures
        current_list(merged_fields(meta, defaults, s), field).contains(item) <==> (current_list(
            defaults,
            field,
        ).contains(item) || source_list(s.pkl, field).contains(item) || source_list(
            s.git,
            field,
        ).contains(item) || source_list(s.env, field).contains(item) || source_list(
            s.cli,
            field,
        ).contains(item)),
    decreases meta.len(),
{
    let init = meta.drop_last();
    let last = meta.last();
    lemma_position(meta, field);
    assert forall|i: int| 0 <= i < init.len() && last.0 == field implies (#[trigger] init[i]).0
        != field by {
        assert(init[i] == meta[i]);
        assert(meta[i].0 != meta[meta.len() - 1].0);
    }
    let fields = merged_fields(init, defaults, s);
    lemma_all_layered(fields, last.0, is_union(last.1), s, field);
    if last.0 == field {
        lemma_merged_untouched(init, defaults, s, field);
        let f1 = layered(fields, field, true, s.pkl);
        let f2 = layered(f1, field, true, s.git);
        let f3 = layered(f2, field, true, s.env);
        lemma_layered_union(fields, field, s.pkl, item);
        lemma_layered_union(f1, field, s.git, item);
        lemma_layered_union(f2, field, s.env, item);
        lemma_layered_union(f3, field, s.cli, item);
    } else {
        assert(distinct(init)) by {
            assert forall|i: int, j: int| 0 <= i < j < init.len() implies init[i].0 != init[j].0 by {
                assert(meta[i].0 != meta[j].0);
            }
        }
        law_union_collects_every_source(init, defaults, s, field, item);
    }
}

/// Where the value of a setting came from, and each item of a list.
pub struct SourceInfo {
    pub last: Option<SettingSource>,
    pub list_items: Option<Table<Vec<SettingSource>>>,
}

/// What [`SourceInfo`] stands for.
pub struct SourceInfoView {
    pub last: Option<SettingSource>,
    pub list_items: Option<Seq<(Seq<char>, Seq<SettingSource>)>>,
}

impl View for SourceInfo {
    type V = SourceInfoView;

    open spec fn view(&self) -> SourceInfoView {
        SourceInfoView {
            last: self.last,
            list_items: item_sources(self.list_items),
        }
    }
}

/// The sources of the items of a list.
pub open spec fn item_sources(
    items: Option<Table<Vec<SettingSource>>>,
) -> Option<Seq<(Seq<char>, Seq<SettingSource>)>> {
    match items {
        Some(t) => Some(t@),
        None => None,
    }
}

/// What is known of a setting so far.
pub open spec fn info_of(
    info: Seq<(Seq<char>, SourceInfoView)>,
    field: Seq<char>,
) -> SourceInfoView {
    match lookup(info, field) {
        Some(i) => i,
        None => SourceInfoView { last: None, list_items: None },
    }
}

/// The sources of items with one more source for one item.
pub open spec fn with_item(
    items: Option<Seq<(Seq<char>, Seq<SettingSource>)>>,
    item: Seq<char>,
    source: SettingSource,
) -> Option<Seq<(Seq<char>, Seq<SettingSource>)>> {
    let known = match items {
        Some(m) => m,
        None => seq![],
    };
    let sources = match lookup(known, item) {
        Some(s) => s,
        None => seq![],
    };
    Some(put(known, item, sources.push(source)))
}

/// The sources of items with one more source for each of `list`.
pub open spec fn with_items(
    items: Option<Seq<(Seq<char>, Seq<SettingSource>)>>,
    list: Seq<Seq<char>>,
    source: SettingSource,
) -> Option<Seq<(Seq<char>, Seq<SettingSource>)>>
    decreases list.len(),
{
    if list.len() == 0 {
        items
    } else {
        with_item(with_items(items, list.drop_last(), source), list.last(), source)
    }
}

/// What is known of the settings after one source has had its say on one.
pub open spec fn informed(
    info: Seq<(Seq<char>, SourceInfoView)>,
    field: Seq<char>,
    union: bool,
    source: Seq<(Seq<char>, SettingValueView)>,
    name: SettingSource,
) -> Seq<(Seq<char>, SourceInfoView)> {
    match lookup(source, field) {
        None => info,
        Some(v) => {
            let known = info_of(info, field);
            let items = match v {
                SettingValueView::StringList(l) => if union {
                    with_items(known.list_items, l, name)
                } else {
                    known.list_items
                },
                _ => known.list_items,
            };
            put(info, field, SourceInfoView { last: Some(name), list_items: items })
        },
    }
}

pub open spec fn all_informed(
    info: Seq<(Seq<char>, SourceInfoView)>,
    field: Seq<char>,
    union: bool,
    s: Sources,
) -> Seq<(Seq<char>, SourceInfoView)> {
    informed(
        informed(
            informed(
                informed(info, field, union, s.pkl, SettingSource::Pkl),
                field,
                union,
                s.git,
                SettingSource::Git,
            ),
            field,
            union,
            s.env,
            SettingSource::Env,
        ),
        field,
        union,
        s.cli,
        SettingSource::Cli,
    )
}

/// The items of a list that the defaults hold, each with the defaults as its source.
pub open spec fn default_items(list: Seq<Seq<char>>) -> Seq<(Seq<char>, Seq<SettingSource>)>
    decreases list.len(),
{
    if list.len() == 0 {
        seq![]
    } else {
        put(default_items(list.drop_last()), list.last(), seq![SettingSource::Defaults])
    }
}

/// What the defaults alone say of the source of one setting.
pub open spec fn default_info(
    meta: SettingMetaView,
    value: Option<FieldValueView>,
) -> SourceInfoView {
    SourceInfoView {
        last: Some(SettingSource::Defaults),
        list_items: match value {
            Some(FieldValueView::List(l)) => if is_list(meta) && l.len() > 0 {
                Some(default_items(l))
            } else {
                None
            },
            _ => None,
        },
    }
}

/// What the defaults alone say of the sources.
pub open spec fn defaults_informed(
    meta: Seq<(Seq<char>, SettingMetaView)>,
    defaults: Seq<(Seq<char>, FieldValueView)>,
) -> Seq<(Seq<char>, SourceInfoView)>
    decreases meta.len(),
{
    if meta.len() == 0 {
        seq![]
    } else {
        put(
            defaults_informed(meta.drop_last(), defaults),
            meta.last().0,
            default_info(meta.last().1, lookup(defaults, meta.last().0)),
        )
    }
}

/// What is known of the sources after all have had their say.
pub open spec fn merged_info(
    meta: Seq<(Seq<char>, SettingMetaView)>,
    start: Seq<(Seq<char>, SourceInfoView)>,
    s: Sources,
) -> Seq<(Seq<char>, SourceInfoView)>
    decreases meta.len(),
{
    if meta.len() == 0 {
        start
    } else {
        all_informed(
            merged_info(meta.drop_last(), start, s),
            meta.last().0,
            is_union(meta.last().1),
            s,
        )
    }
}

fn add_item(items: &mut Table<Vec<SettingSource>>, item: &str, source: SettingSource)
    ensures
        Some(final(items)@) == with_item(Some(old(items)@), item@, source),
{
    let ghost start = items@;
    match items.find(item) {
        Some(i) => {
            let mut sources = items.replace_at(i, Vec::new());
            sources.push(source);
            items.replace_at(i, sources);
            assert(items@ =~= put(start, item@, sources@));
        },
        None => {
            let mut sources: Vec<SettingSource> = Vec::new();
            sources.push(source);
            assert(sources@ =~= Seq::<SettingSource>::empty().push(source));
            items.insert(item.to_owned(), sources);
        },
    }
}

fn add_items(
    items: Option<Table<Vec<SettingSource>>>,
    list: &NameSet,
    source: SettingSource,
) -> (r: Option<Table<Vec<SettingSource>>>)
    ensures
        item_sources(r) == with_items(item_sources(items), list@, source),
{
    let n: usize = list.len();
    if n == 0 {
        return items;
    }
    let ghost start = item_sources(items);
    let mut known = match items {
        Some(t) => t,
        None => Table::new(),
    };
    let ghost known0 = known@;
    for i in 0..n
        invariant
            n == list@.len(),
            known0 == (match start {
                Some(m) => m,
                None => seq![],
            }),
            i == 0 ==> known@ == known0,
            i > 0 ==> Some(known@) == with_items(start, list@.take(i as int), source),
    {
        let ghost before = known@;
        add_item(&mut known, list.at(i).as_str(), source);
        proof {
            assert(list@.take(0) =~= Seq::<Seq<char>>::empty());
            if i == 0 {
                assert(with_items(start, list@.take(0), source) == start);
                assert(with_item(start, list@[0], source) == with_item(
                    Some(before),
                    list@[0],
                    source,
                ));
            }
        }
    }
    assert(list@.take(n as int) =~= list@);
    Some(known)
}

fn take_info(info: &mut Table<SourceInfo>, field: &str) -> (r: SourceInfo)
    ensures
        r@ == info_of(old(info)@, field@),
        forall|v: SourceInfoView|
            #[trigger] put(final(info)@, field@, v) == put(old(info)@, field@, v),
{
    let ghost start = info@;
    match info.find(field) {
        Some(i) => {
            let blank = SourceInfo { last: None, list_items: None };
            let ghost b = blank@;
            let r = info.replace_at(i, blank);
            proof {
                assert forall|v: SourceInfoView| #[trigger]
                    put(info@, field@, v) == put(start, field@, v) by {
                    crate::table::lemma_put_over(start, field@, b, v);
                }
            }
            r
        },
        None => SourceInfo { last: None, list_items: None },
    }
}

fn inform(
    info: &mut Table<SourceInfo>,
    field: &str,
    union: bool,
    source: &Table<SettingValue>,
    name: SettingSource,
)
    ensures
        final(info)@ == informed(old(info)@, field@, union, source@, name),
{
    match source.get(field) {
        None => {},
        Some(v) => {
            let known = take_info(info, field);
            let items = match v {
                SettingValue::StringList(l) => if union {
                    add_items(known.list_items, l, name)
                } else {
                    known.list_items
                },
                _ => known.list_items,
            };
            info.insert(field.to_owned(), SourceInfo { last: Some(name), list_items: items });
        },
    }
}

fn list_from_defaults(list: &Vec<String>) -> (r: Table<Vec<SettingSource>>)
    ensures
        r@ == default_items(texts(list@)),
{
    let mut out: Table<Vec<SettingSource>> = Table::new();
    for i in 0..list.len()
        invariant
            out@ == default_items(texts(list@).take(i as int)),
    {
        let mut sources: Vec<SettingSource> = Vec::new();
        sources.push(SettingSource::Defaults);
        assert(sources@ =~= seq![SettingSource::Defaults]);
        out.insert(list[i].clone(), sources);
    }
    assert(texts(list@).take(list@.len() as int) =~= texts(list@));
    out
}

/// What the defaults alone say of the sources.
fn inform_defaults(meta: &Table<SettingMeta>, defaults: &Table<FieldValue>) -> (r: Table<SourceInfo>)
    ensures
        r@ == defaults_informed(meta@, defaults@),
{
    let mut info: Table<SourceInfo> = Table::new();
    let n: usize = meta.len();
    for i in 0..n
        invariant
            n == meta@.len(),
            info@ == defaults_informed(meta@.take(i as int), defaults@),
    {
        let field = meta.key_at(i);
        let mut items: Option<Table<Vec<SettingSource>>> = None;
        if let Some(FieldValue::List(l)) = defaults.get(field.as_str()) {
            if meta.value_at(i).holds_list() && l.len() > 0 {
                items = Some(list_from_defaults(l));
            }
        }
        let entry = SourceInfo { last: Some(SettingSource::Defaults), list_items: items };
        assert(entry@ == default_info(meta@[i as int].1, lookup(defaults@, field@)));
        info.insert(field.clone(), entry);
    }
    assert(meta@.take(n as int) =~= meta@);
    info
}

/// Merges the sources and records for each setting which source spoke last,
/// and for each item of a combined list every source that named it.
pub fn merge_fields_with_sources(
    meta: &Table<SettingMeta>,
    defaults: &Table<FieldValue>,
    env: &Table<SettingValue>,
    git: &Table<SettingValue>,
    pkl: &Table<SettingValue>,
    cli: &Table<SettingValue>,
) -> (r: (Table<FieldValue>, Table<SourceInfo>))
    ensures
        r.0@ == merged_fields(
            meta@,
            defaults@,
            (Sources { pkl: pkl@, git: git@, env: env@, cli: cli@ }),
        ),
        r.1@ == merged_info(
            meta@,
            defaults_informed(meta@, defaults@),
            (Sources { pkl: pkl@, git: git@, env: env@, cli: cli@ }),
        ),
{
    let fields = merge_fields(meta, defaults, env, git, pkl, cli);
    let mut info = inform_defaults(meta, defaults);
    let ghost start = info@;
    let ghost s = Sources { pkl: pkl@, git: git@, env: env@, cli: cli@ };
    let n: usize = meta.len();
    for i in 0..n
        invariant
            n == meta@.len(),
            s == (Sources { pkl: pkl@, git: git@, env: env@, cli: cli@ }),
            info@ == merged_info(meta@.take(i as int), start, s),
    {
        let field = meta.key_at(i).as_str();
        let union = meta.value_at(i).merges_union();
        inform(&mut info, field, union, pkl, SettingSource::Pkl);
        inform(&mut info, field, union, git, SettingSource::Git);
        inform(&mut info, field, union, env, SettingSource::Env);
        inform(&mut info, field, union, cli, SettingSource::Cli);
    }
    assert(meta@.take(n as int) =~= meta@);
    (fields, info)
}

/// The word, in lower case, says yes.
pub open spec fn says_yes(lower: Seq<char>) -> bool {
    lower == "1"@ || lower == "true"@ || lower == "yes"@ || lower == "on"@
}

/// Whether a word in lower case says yes.
pub fn is_yes(lower: &str) -> (r: bool)
    ensures
        r == says_yes(lower@),
{
    same(lower, "1") || same(lower, "true") || same(lower, "yes") || same(lower, "on")
}

pub open spec fn invalid_value(
    var: Seq<char>,
    value: Seq<char>,
    expected: Seq<char>,
) -> Seq<char> {
    "Invalid value for "@ + var + ": '"@ + value + "' (expected "@ + expected + ")"@
}

fn invalid_message(var: &str, value: &str, expected: &str) -> (r: String)
    ensures
        r@ == invalid_value(var@, value@, expected@),
{
    let mut m = "Invalid value for ".to_owned();
    m.append(var);
    m.append(": '");
    m.append(value);
    m.append("' (expected ");
    m.append(expected);
    m.append(")");
    m
}

/// The number that a text stands for, where it is at most `max`.
pub open spec fn bounded_value(s: Seq<char>, max: nat) -> Option<nat> {
    match unsigned_value(s) {
        Some(n) => if n <= max {
            Some(n)
        } else {
            None
        },
        None => None,
    }
}

/// What the variable `var` with the text `value` says of a setting of type
/// `typ`: a value, nothing, or an error.
pub open spec fn env_value(
    typ: Seq<char>,
    var: Seq<char>,
    value: Seq<char>,
    lower: Seq<char>,
) -> Result<Option<SettingValueView>, Seq<char>> {
    if typ == "bool"@ {
        Ok(Some(SettingValueView::Bool(says_yes(lower))))
    } else if typ == "usize"@ {
        match bounded_value(value, usize::MAX as nat) {
            Some(n) => Ok(Some(SettingValueView::Usize(n as usize))),
            None => Err(invalid_value(var, value, "positive integer"@)),
        }
    } else if typ == "u8"@ {
        match bounded_value(value, 255) {
            Some(n) => Ok(Some(SettingValueView::U8(n as u8))),
            None => Err(invalid_value(var, value, "integer 0-255"@)),
        }
    } else if starts(typ, "list<string>"@) {
        Ok(Some(SettingValueView::StringList(push_all_new(seq![], comma_items(value)))))
    } else if typ == "path"@ {
        Ok(Some(SettingValueView::Path(value)))
    } else if typ == "string"@ || typ == "enum"@ {
        Ok(Some(SettingValueView::String(value)))
    } else {
        Ok(None)
    }
}

/// What a result with an optional setting value stands for.
pub open spec fn value_result(
    r: Result<Option<SettingValue>, String>,
) -> Result<Option<SettingValueView>, Seq<char>> {
    match r {
        Ok(Some(v)) => Ok(Some(v@)),
        Ok(None) => Ok(None),
        Err(e) => Err(e@),
    }
}

/// What the variable `var` with the text `value`, which is `lower` in lower
/// case, says of a setting of type `typ`.
pub fn parse_env_value(typ: &str, var: &str, value: &str, lower: &str) -> (r: Result<
    Option<SettingValue>,
    String,
>)
    ensures
        value_result(r) == env_value(typ@, var@, value@, lower@),
{
    if same(typ, "bool") {
        Ok(Some(SettingValue::Bool(is_yes(lower))))
    } else if same(typ, "usize") {
        match parse_unsigned(value, usize::MAX) {
            Some(n) => Ok(Some(SettingValue::Usize(n))),
            None => Err(invalid_message(var, value, "positive integer")),
        }
    } else if same(typ, "u8") {
        match parse_unsigned(value, 255) {
            Some(n) => Ok(Some(SettingValue::U8(n as u8))),
            None => Err(invalid_message(var, value, "integer 0-255")),
        }
    } else if starts_with(typ, "list<string>") {
        Ok(Some(SettingValue::StringList(NameSet::of(&split_commas(value)))))
    } else if same(typ, "path") {
        Ok(Some(SettingValue::Path(value.to_owned())))
    } else if same(typ, "string") || same(typ, "enum") {
        Ok(Some(SettingValue::String(value.to_owned())))
    } else {
        Ok(None)
    }
}

/// The position of the first name that is a key.
pub open spec fn first_set(names: Seq<Seq<char>>, vars: Seq<(Seq<char>, Seq<char>)>) -> Option<int>
    decreases names.len(),
{
    if names.len() == 0 {
        None
    } else {
        match first_set(names.drop_last(), vars) {
            Some(i) => Some(i),
            None => if has_key(vars, names.last()) {
                Some(names.len() - 1)
            } else {
                None
            },
        }
    }
}

fn find_set(names: &Vec<String>, vars: &Table<String>) -> (r: Option<usize>)
    ensures
        r is Some == first_set(texts(names@), vars@) is Some,
        r matches Some(i) ==> first_set(texts(names@), vars@) == Some(i as int) && i < names@.len()
            && has_key(vars@, texts(names@)[i as int]),
{
    let mut found: Option<usize> = None;
    for i in 0..names.len()
        invariant
            found is Some == first_set(texts(names@).take(i as int), vars@) is Some,
            found matches Some(j) ==> first_set(texts(names@).take(i as int), vars@) == Some(
                j as int,
            ) && j < i && has_key(vars@, texts(names@)[j as int]),
    {
        assert(texts(names@)[i as int] == names@[i as int]@);
        if found.is_none() && vars.contains_key(names[i].as_str()) {
            found = Some(i);
        }
    }
    assert(texts(names@).take(names@.len() as int) =~= texts(names@));
    found
}

/// What the environment says of one setting.
pub open spec fn env_setting(
    meta: SettingMetaView,
    vars: Seq<(Seq<char>, Seq<char>)>,
) -> Result<Option<SettingValueView>, Seq<char>> {
    match first_set(meta.env, vars) {
        Some(i) => {
            let value = lookup(vars, meta.env[i])->0;
            env_value(meta.typ, meta.env[i], value, lower_case(value))
        },
        None => Ok(None),
    }
}

/// What the environment says of the settings, up to the first error.
pub open spec fn env_map(
    meta: Seq<(Seq<char>, SettingMetaView)>,
    vars: Seq<(Seq<char>, Seq<char>)>,
) -> Result<Seq<(Seq<char>, SettingValueView)>, Seq<char>>
    decreases meta.len(),
{
    if meta.len() == 0 {
        Ok(seq![])
    } else {
        match env_map(meta.drop_last(), vars) {
            Err(e) => Err(e),
            Ok(map) => match env_setting(meta.last().1, vars) {
                Err(e) => Err(e),
                Ok(None) => Ok(map),
                Ok(Some(v)) => Ok(put(map, meta.last().0, v)),
            },
        }
    }
}

/// What a result with a source map stands for.
pub open spec fn map_result(
    r: Result<Table<SettingValue>, String>,
) -> Result<Seq<(Seq<char>, SettingValueView)>, Seq<char>> {
    match r {
        Ok(t) => Ok(t@),
        Err(e) => Err(e@),
    }
}

fn env_setting_of(meta: &SettingMeta, vars: &Table<String>) -> (r: Result<
    Option<SettingValue>,
    String,
>)
    ensures
        value_result(r) == env_setting(meta@, vars@),
{
    match find_set(&meta.env, vars) {
        Some(i) => {
            let var = meta.env[i].as_str();
            assert(texts(meta.env@)[i as int] == var@);
            let value = vars.get(var).unwrap();
            let lower = to_lower(value.as_str());
            parse_env_value(meta.typ.as_str(), var, value.as_str(), lower.as_str())
        },
        None => Ok(None),
    }
}

/// What the environment says of the settings. For each setting the first of
/// its variables that is set counts.
pub fn collect_env_map(meta: &Table<SettingMeta>, vars: &Table<String>) -> (r: Result<
    Table<SettingValue>,
    String,
>)
    ensures
        map_result(r) == env_map(meta@, vars@),
{
    let mut map: Result<Table<SettingValue>, String> = Ok(Table::new());
    let n: usize = meta.len();
    for i in 0..n
        invariant
            n == meta@.len(),
            map_result(map) == env_map(meta@.take(i as int), vars@),
    {
        map = match map {
            Err(e) => Err(e),
            Ok(mut t) => match env_setting_of(meta.value_at(i), vars) {
                Err(e) => Err(e),
                Ok(None) => Ok(t),
                Ok(Some(v)) => {
                    t.insert(meta.key_at(i).clone(), v);
                    Ok(t)
                },
            },
        };
    }
    assert(meta@.take(n as int) =~= meta@);
    map
}

/// What git configuration holds under one key, read as each type.
pub struct GitRead {
    pub flag: Option<bool>,
    pub number: Option<i32>,
    pub text: Option<String>,
    pub list: Vec<String>,
}

/// What [`GitRead`] stands for.
pub struct GitReadView {
    pub flag: Option<bool>,
    pub number: Option<i32>,
    pub text: Option<Seq<char>>,
    pub list: Seq<Seq<char>>,
}

impl View for GitRead {
    type V = GitReadView;

    open spec fn view(&self) -> GitReadView {
        GitReadView {
            flag: self.flag,
            number: self.number,
            text: opt_text(self.text),
            list: texts(self.list@),
        }
    }
}

/// The first flag that a key holds.
pub open spec fn first_flag(reads: Seq<GitReadView>) -> Option<bool>
    decreases reads.len(),
{
    if reads.len() == 0 {
        None
    } else {
        match first_flag(reads.drop_last()) {
            Some(b) => Some(b),
            None => reads.last().flag,
        }
    }
}

/// The first number between `low` and `high` that a key holds.
pub open spec fn first_number(reads: Seq<GitReadView>, low: int, high: int) -> Option<i32>
    decreases reads.len(),
{
    if reads.len() == 0 {
        None
    } else {
        match first_number(reads.drop_last(), low, high) {
            Some(n) => Some(n),
            None => match reads.last().number {
                Some(n) => if low <= n <= high {
                    Some(n)
                } else {
                    None
                },
                None => None,
            },
        }
    }
}

/// The first text that a key holds.
pub open spec fn first_text(reads: Seq<GitReadView>) -> Option<Seq<char>>
    decreases reads.len(),
{
    if reads.len() == 0 {
        None
    } else {
        match first_text(reads.drop_last()) {
            Some(s) => Some(s),
            None => reads.last().text,
        }
    }
}

/// The items between commas of all values, in order.
pub open spec fn value_items(values: Seq<Seq<char>>) -> Seq<Seq<char>>
    decreases values.len(),
{
    if values.len() == 0 {
        seq![]
    } else {
        push_all_new(value_items(values.drop_last()), comma_items(values.last()))
    }
}

/// The items of all keys, in order.
pub open spec fn all_items(reads: Seq<GitReadView>) -> Seq<Seq<char>>
    decreases reads.len(),
{
    if reads.len() == 0 {
        seq![]
    } else {
        push_all_new(all_items(reads.drop_last()), value_items(reads.last().list))
    }
}

/// What git configuration says of a setting of type `typ`, where `reads` holds
/// what is under each of its keys.
pub open spec fn git_value(typ: Seq<char>, reads: Seq<GitReadView>) -> Option<SettingValueView> {
    if typ == "bool"@ {
        match first_flag(reads) {
            Some(b) => Some(SettingValueView::Bool(b)),
            None => None,
        }
    } else if typ == "usize"@ {
        match first_number(reads, 1, i32::MAX as int) {
            Some(n) => Some(SettingValueView::Usize(n as usize)),
            None => None,
        }
    } else if typ == "u8"@ {
        match first_number(reads, 0, 255) {
            Some(n) => Some(SettingValueView::U8(n as u8)),
            None => None,
        }
    } else if starts(typ, "list<string>"@) {
        if all_items(reads).len() > 0 {
            Some(SettingValueView::StringList(all_items(reads)))
        } else {
            None
        }
    } else if typ == "string"@ || typ == "enum"@ {
        match first_text(reads) {
            Some(s) => Some(SettingValueView::String(s)),
            None => None,
        }
    } else if typ == "path"@ {
        match first_text(reads) {
            Some(s) => Some(SettingValueView::Path(s)),
            None => None,
        }
    } else {
        None
    }
}

/// The items between commas of all values of one key.
pub fn read_git_string_list(values: &Vec<String>) -> (r: NameSet)
    ensures
        r@ == value_items(texts(values@)),
{
    let mut out = NameSet::new();
    for i in 0..values.len()
        invariant
            out@ == value_items(texts(values@).take(i as int)),
    {
        out.insert_all(&split_commas(values[i].as_str()));
    }
    assert(texts(values@).take(values@.len() as int) =~= texts(values@));
    out
}

fn find_flag(reads: &Vec<GitRead>) -> (r: Option<bool>)
    ensures
        r == first_flag(views(reads@)),
{
    let mut found: Option<bool> = None;
    for i in 0..reads.len()
        invariant
            found == first_flag(views(reads@).take(i as int)),
    {
        assert(views(reads@)[i as int] == reads@[i as int]@);
        if found.is_none() {
            found = reads[i].flag;
        }
    }
    assert(views(reads@).take(reads@.len() as int) =~= views(reads@));
    found
}

fn find_number(reads: &Vec<GitRead>, low: i32, high: i32) -> (r: Option<i32>)
    ensures
        r == first_number(views(reads@), low as int, high as int),
        r matches Some(n) ==> low <= n <= high,
{
    let mut found: Option<i32> = None;
    for i in 0..reads.len()
        invariant
            found == first_number(views(reads@).take(i as int), low as int, high as int),
            found matches Some(n) ==> low <= n <= high,
    {
        assert(views(reads@)[i as int] == reads@[i as int]@);
        if found.is_none() {
            if let Some(n) = reads[i].number {
                if low <= n && n <= high {
                    found = Some(n);
                }
            }
        }
    }
    assert(views(reads@).take(reads@.len() as int) =~= views(reads@));
    found
}

fn find_text(reads: &Vec<GitRead>) -> (r: Option<String>)
    ensures
        opt_text(r) == first_text(views(reads@)),
{
    let mut found: Option<String> = None;
    for i in 0..reads.len()
        invariant
            opt_text(found) == first_text(views(reads@).take(i as int)),
    {
        assert(views(reads@)[i as int] == reads@[i as int]@);
        if found.is_none() {
            found = dup_opt(&reads[i].text);
        }
    }
    assert(views(reads@).take(reads@.len() as int) =~= views(reads@));
    found
}

fn find_items(reads: &Vec<GitRead>) -> (r: NameSet)
    ensures
        r@ == all_items(views(reads@)),
{
    let mut out = NameSet::new();
    for i in 0..reads.len()
        invariant
            out@ == all_items(views(reads@).take(i as int)),
    {
        assert(views(reads@)[i as int] == reads@[i as int]@);
        out.extend(&read_git_string_list(&reads[i].list));
    }
    assert(views(reads@).take(reads@.len() as int) =~= views(reads@));
    out
}

/// What git configuration says of a setting of type `typ`.
pub fn pick_git_value(typ: &str, reads: &Vec<GitRead>) -> (r: Option<SettingValue>)
    ensures
        crate::seqs::opt_view(r) == git_value(typ@, views(reads@)),
{
    if same(typ, "bool") {
        match find_flag(reads) {
            Some(b) => Some(SettingValue::Bool(b)),
            None => None,
        }
    } else if same(typ, "usize") {
        match find_number(reads, 1, i32::MAX) {
            Some(n) => Some(SettingValue::Usize(n as usize)),
            None => None,
        }
    } else if same(typ, "u8") {
        match find_number(reads, 0, 255) {
            Some(n) => Some(SettingValue::U8(n as u8)),
            None => None,
        }
    } else if starts_with(typ, "list<string>") {
        let items = find_items(reads);
        if items.is_empty() {
            None
        } else {
            Some(SettingValue::StringList(items))
        }
    } else if same(typ, "string") || same(typ, "enum") {
        match find_text(reads) {
            Some(s) => Some(SettingValue::String(s)),
            None => None,
        }
    } else if same(typ, "path") {
        match find_text(reads) {
            Some(s) => Some(SettingValue::Path(s)),
            None => None,
        }
    } else {
        None
    }
}

/// What git configuration says of the settings, where `reads` holds, for each
/// setting in order, what is under each of its keys.
pub open spec fn git_map(
    meta: Seq<(Seq<char>, SettingMetaView)>,
    reads: Seq<Seq<GitReadView>>,
) -> Seq<(Seq<char>, SettingValueView)>
    decreases meta.len(),
{
    if meta.len() == 0 {
        seq![]
    } else {
        let before = git_map(meta.drop_last(), reads);
        match git_value(meta.last().1.typ, reads[meta.len() - 1]) {
            Some(v) => put(before, meta.last().0, v),
            None => before,
        }
    }
}

pub open spec fn read_views(reads: Seq<Vec<GitRead>>) -> Seq<Seq<GitReadView>> {
    reads.map_values(|v: Vec<GitRead>| views(v@))
}

/// What git configuration says of the settings, where `reads` holds, for each
/// setting in order, what is under each of its keys.
pub fn collect_git_map(meta: &Table<SettingMeta>, reads: &Vec<Vec<GitRead>>) -> (r: Table<
    SettingValue,
>)
    requires
        reads@.len() == meta@.len(),
    ensures
        r@ == git_map(meta@, read_views(reads@)),
{
    let mut map: Table<SettingValue> = Table::new();
    let n: usize = meta.len();
    for i in 0..n
        invariant
            n == meta@.len(),
            reads@.len() == meta@.len(),
            map@ == git_map(meta@.take(i as int), read_views(reads@)),
    {
        assert(read_views(reads@)[i as int] == views(reads@[i as int]@));
        match pick_git_value(meta.value_at(i).typ.as_str(), &reads[i]) {
            Some(v) => {
                map.insert(meta.key_at(i).clone(), v);
            },
            None => {},
        }
    }
    assert(meta@.take(n as int) =~= meta@);
    map
}

/// The texts among the values of an array.
pub open spec fn array_texts(values: Seq<JsonView>) -> Seq<Seq<char>>
    decreases values.len(),
{
    if values.len() == 0 {
        seq![]
    } else {
        let before = array_texts(values.drop_last());
        match values.last().text() {
            Some(s) => before.push(s),
            None => before,
        }
    }
}

/// What a value of the project's configuration says of a setting of type `typ`.
pub open spec fn pkl_value(typ: Seq<char>, value: JsonView) -> Option<SettingValueView> {
    match value {
        JsonView::Bool(b) => if typ == "bool"@ {
            Some(SettingValueView::Bool(b))
        } else {
            None
        },
        JsonView::Number(_, unsigned) => match unsigned {
            Some(u) => if typ == "usize"@ && u <= usize::MAX {
                Some(SettingValueView::Usize(u as usize))
            } else if typ == "u8"@ && u <= 255 {
                Some(SettingValueView::U8(u as u8))
            } else {
                None
            },
            None => None,
        },
        JsonView::String(s) => if typ == "string"@ || typ == "enum"@ {
            Some(SettingValueView::String(s))
        } else if typ == "path"@ {
            Some(SettingValueView::Path(s))
        } else if starts(typ, "list<string>"@) {
            Some(SettingValueView::StringList(seq![s]))
        } else {
            None
        },
        JsonView::Array(items) => if starts(typ, "list<string>"@) {
            Some(SettingValueView::StringList(push_all_new(seq![], array_texts(items))))
        } else {
            None
        },
        _ => None,
    }
}

fn texts_of_array(values: &Vec<Json>) -> (r: Vec<String>)
    ensures
        texts(r@) == array_texts(views(values@)),
{
    let mut out: Vec<String> = Vec::new();
    assert(texts(out@) =~= array_texts(views(values@).take(0)));
    for i in 0..values.len()
        invariant
            texts(out@) == array_texts(views(values@).take(i as int)),
    {
        assert(views(values@)[i as int] == values@[i as int]@);
        if let Some(s) = values[i].as_str() {
            out.push(s.to_owned());
        }
    }
    assert(views(values@).take(values@.len() as int) =~= views(values@));
    out
}

/// What a value of the project's configuration says of a setting of type `typ`.
pub fn read_pkl_value(typ: &str, value: &Json) -> (r: Option<SettingValue>)
    ensures
        crate::seqs::opt_view(r) == pkl_value(typ@, value@),
{
    broadcast use group_json;

    match value {
        Json::Bool(b) => {
            if same(typ, "bool") {
                Some(SettingValue::Bool(*b))
            } else {
                None
            }
        },
        Json::Number(n) => {
            match n.unsigned {
                Some(u) => {
                    if same(typ, "usize") && u <= usize::MAX as u64 {
                        Some(SettingValue::Usize(u as usize))
                    } else if same(typ, "u8") && u <= 255 {
                        Some(SettingValue::U8(u as u8))
                    } else {
                        None
                    }
                },
                None => None,
            }
        },
        Json::String(s) => {
            if same(typ, "string") || same(typ, "enum") {
                Some(SettingValue::String(s.clone()))
            } else if same(typ, "path") {
                Some(SettingValue::Path(s.clone()))
            } else if starts_with(typ, "list<string>") {
                let mut set = NameSet::new();
                set.insert(s.clone());
                assert(set@ =~= seq![s@]);
                Some(SettingValue::StringList(set))
            } else {
                None
            }
        },
        Json::Array(items) => {
            if starts_with(typ, "list<string>") {
                Some(SettingValue::StringList(NameSet::of(&texts_of_array(items))))
            } else {
                None
            }
        },
        _ => None,
    }
}

/// What the project's configuration says of the settings that it can set.
pub open spec fn pkl_map(
    meta: Seq<(Seq<char>, SettingMetaView)>,
    config: JsonView,
) -> Seq<(Seq<char>, SettingValueView)>
    decreases meta.len(),
{
    if meta.len() == 0 {
        seq![]
    } else {
        let before = pkl_map(meta.drop_last(), config);
        match config.field(replaced_char(meta.last().0, '-', "_"@)) {
            Some(value) => match pkl_value(meta.last().1.typ, value) {
                Some(v) => if meta.last().1.pkl.len() > 0 {
                    put(before, meta.last().0, v)
                } else {
                    before
                },
                None => before,
            },
            None => before,
        }
    }
}

/// What the project's configuration, as a JSON object, says of the settings.
pub fn collect_pkl_map(meta: &Table<SettingMeta>, config: &Json) -> (r: Table<SettingValue>)
    ensures
        r@ == pkl_map(meta@, config@),
{
    let mut map: Table<SettingValue> = Table::new();
    let n: usize = meta.len();
    for i in 0..n
        invariant
            n == meta@.len(),
            map@ == pkl_map(meta@.take(i as int), config@),
    {
        let entry = meta.value_at(i);
        let field = crate::text::replace_char(meta.key_at(i).as_str(), '-', "_");
        if entry.pkl.len() > 0 {
            if let Some(value) = config.get(field.as_str()) {
                if let Some(v) = read_pkl_value(entry.typ.as_str(), value) {
                    map.insert(meta.key_at(i).clone(), v);
                }
            }
        }
    }
    assert(meta@.take(n as int) =~= meta@);
    map
}

/// The form of the results of a run.
#[derive(Clone, Copy, Debug, PartialEq, Eq, Structural)]
pub enum OutputFormat {
    Human,
    Json,
    Jsonl,
}

/// The global flags of a command line.
pub struct CliSnapshot {
    pub jobs: Option<usize>,
    pub profiles: Vec<String>,
    pub slow: bool,
    pub quiet: bool,
    pub silent: bool,
    pub trace: bool,
    pub output_format: OutputFormat,
}

/// What [`CliSnapshot`] stands for.
pub struct CliSnapshotView {
    pub jobs: Option<usize>,
    pub profiles: Seq<Seq<char>>,
    pub slow: bool,
    pub quiet: bool,
    pub silent: bool,
    pub trace: bool,
    pub output_format: OutputFormat,
}

impl View for CliSnapshot {
    type V = CliSnapshotView;

    open spec fn view(&self) -> CliSnapshotView {
        CliSnapshotView {
            jobs: self.jobs,
            profiles: texts(self.profiles@),
            slow: self.slow,
            quiet: self.quiet,
            silent: self.silent,
            trace: self.trace,
            output_format: self.output_format,
        }
    }
}

impl Dup for CliSnapshot {
    fn dup(&self) -> (r: Self) {
        CliSnapshot {
            jobs: self.jobs,
            profiles: dup_list(&self.profiles),
            slow: self.slow,
            quiet: self.quiet,
            silent: self.silent,
            trace: self.trace,
            output_format: self.output_format,
        }
    }
}

impl Default for CliSnapshot {
    fn default() -> (r: Self)
        ensures
            r@ == (CliSnapshotView {
                jobs: None,
                profiles: seq![],
                slow: false,
                quiet: false,
                silent: false,
                trace: false,
                output_format: OutputFormat::Human,
            }),
    {
        let r = CliSnapshot {
            jobs: None,
            profiles: Vec::new(),
            slow: false,
            quiet: false,
            silent: false,
            trace: false,
            output_format: OutputFormat::Human,
        };
        assert(r@.profiles =~= seq![]);
        r
    }
}

/// The profiles that a command line names.
pub open spec fn cli_profiles(snapshot: CliSnapshotView) -> Seq<Seq<char>> {
    let named = push_all_new(seq![], snapshot.profiles);
    if snapshot.slow {
        push_new(named, "slow"@)
    } else {
        named
    }
}

/// What the flags of a command line say of the settings.
pub open spec fn flag_map(snapshot: CliSnapshotView) -> Seq<(Seq<char>, SettingValueView)> {
    let m0 = Seq::<(Seq<char>, SettingValueView)>::empty();
    let m1 = match snapshot.jobs {
        Some(j) => put(m0, "jobs"@, SettingValueView::Usize(j)),
        None => m0,
    };
    let profiles = cli_profiles(snapshot);
    let m2 = if profiles.len() > 0 {
        put(m1, "profiles"@, SettingValueView::StringList(profiles))
    } else {
        m1
    };
    let m3 = if snapshot.quiet {
        put(m2, "quiet"@, SettingValueView::Bool(true))
    } else {
        m2
    };
    if snapshot.silent {
        put(m3, "silent"@, SettingValueView::Bool(true))
    } else {
        m3
    }
}

/// A map with values that the program itself sets on top: a list adds to a
/// list that is there, everything else replaces.
pub open spec fn overlaid(
    map: Seq<(Seq<char>, SettingValueView)>,
    program: Seq<(Seq<char>, SettingValueView)>,
) -> Seq<(Seq<char>, SettingValueView)>
    decreases program.len(),
{
    if program.len() == 0 {
        map
    } else {
        let before = overlaid(map, program.drop_last());
        let (key, value) = program.last();
        match (lookup(before, key), value) {
            (
                Some(SettingValueView::StringList(a)),
                SettingValueView::StringList(b),
            ) => put(before, key, SettingValueView::StringList(push_all_new(a, b))),
            _ => put(before, key, value),
        }
    }
}

/// What the command line and the program itself say of the settings.
pub fn collect_cli_map(snapshot: Option<&CliSnapshot>, program: &Table<SettingValue>) -> (r: Table<
    SettingValue,
>)
    ensures
        r@ == overlaid(
            match snapshot {
                Some(s) => flag_map(s@),
                None => seq![],
            },
            program@,
        ),
{
    let mut map: Table<SettingValue> = Table::new();
    if let Some(s) = snapshot {
        if let Some(j) = s.jobs {
            map.insert("jobs".to_owned(), SettingValue::Usize(j));
        }
        let mut profiles = NameSet::of(&s.profiles);
        if s.slow {
            profiles.insert("slow".to_owned());
        }
        if !profiles.is_empty() {
            map.insert("profiles".to_owned(), SettingValue::StringList(profiles));
        }
        if s.quiet {
            map.insert("quiet".to_owned(), SettingValue::Bool(true));
        }
        if s.silent {
            map.insert("silent".to_owned(), SettingValue::Bool(true));
        }
    }
    let ghost start = map@;
    let n: usize = program.len();
    for i in 0..n
        invariant
            n == program@.len(),
            map@ == overlaid(start, program@.take(i as int)),
    {
        let key = program.key_at(i);
        let value = program.value_at(i);
        let mut combined: Option<NameSet> = None;
        if let SettingValue::StringList(b) = value {
            if let Some(SettingValue::StringList(a)) = map.get(key.as_str()) {
                let mut set = a.dup();
                set.extend(b);
                combined = Some(set);
            }
        }
        match combined {
            Some(set) => map.insert(key.clone(), SettingValue::StringList(set)),
            None => map.insert(key.clone(), value.dup()),
        }
    }
    assert(program@.take(n as int) =~= program@);
    map
}

/// The settings that a run goes by.
pub struct Settings {
    pub jobs: usize,
    pub profiles: NameSet,
    pub skip_hooks: NameSet,
    pub skip_steps: NameSet,
    pub exclude: NameSet,
    pub warnings: NameSet,
    pub hide_warnings: NameSet,
    pub display_skip_reasons: NameSet,
    pub fail_fast: bool,
    pub check: bool,
    pub fix: bool,
    pub quiet: bool,
    pub silent: bool,
    pub walk_ignore: bool,
    pub stage: Option<bool>,
}

/// What [`Settings`] stands for.
pub struct SettingsView {
    pub jobs: usize,
    pub profiles: Seq<Seq<char>>,
    pub skip_hooks: Seq<Seq<char>>,
    pub skip_steps: Seq<Seq<char>>,
    pub exclude: Seq<Seq<char>>,
    pub warnings: Seq<Seq<char>>,
    pub hide_warnings: Seq<Seq<char>>,
    pub display_skip_reasons: Seq<Seq<char>>,
    pub fail_fast: bool,
    pub check: bool,
    pub fix: bool,
    pub quiet: bool,
    pub silent: bool,
    pub walk_ignore: bool,
    pub stage: Option<bool>,
}

impl View for Settings {
    type V = SettingsView;

    open spec fn view(&self) -> SettingsView {
        SettingsView {
            jobs: self.jobs,
            profiles: self.profiles@,
            skip_hooks: self.skip_hooks@,
            skip_steps: self.skip_steps@,
            exclude: self.exclude@,
            warnings: self.warnings@,
            hide_warnings: self.hide_warnings@,
            display_skip_reasons: self.display_skip_reasons@,
            fail_fast: self.fail_fast,
            check: self.check,
            fix: self.fix,
            quiet: self.quiet,
            silent: self.silent,
            walk_ignore: self.walk_ignore,
            stage: self.stage,
        }
    }
}

impl Dup for Settings {
    fn dup(&self) -> (r: Self) {
        Settings {
            jobs: self.jobs,
            profiles: self.profiles.dup(),
            skip_hooks: self.skip_hooks.dup(),
            skip_steps: self.skip_steps.dup(),
            exclude: self.exclude.dup(),
            warnings: self.warnings.dup(),
            hide_warnings: self.hide_warnings.dup(),
            display_skip_reasons: self.display_skip_reasons.dup(),
            fail_fast: self.fail_fast,
            check: self.check,
            fix: self.fix,
            quiet: self.quiet,
            silent: self.silent,
            walk_ignore: self.walk_ignore,
            stage: self.stage,
        }
    }
}

impl Default for Settings {
    fn default() -> (r: Self)
        ensures
            r@ == default_settings(),
    {
        let mut reasons = NameSet::new();
        reasons.insert("profile-not-enabled".to_owned());
        assert(reasons@ =~= seq!["profile-not-enabled"@]);
        Settings {
            jobs: 0,
            profiles: NameSet::new(),
            skip_hooks: NameSet::new(),
            skip_steps: NameSet::new(),
            exclude: NameSet::new(),
            warnings: NameSet::new(),
            hide_warnings: NameSet::new(),
            display_skip_reasons: reasons,
            fail_fast: true,
            check: false,
            fix: true,
            quiet: false,
            silent: false,
            walk_ignore: true,
            stage: None,
        }
    }
}

/// The settings where no source says anything.
pub open spec fn default_settings() -> SettingsView {
    SettingsView {
        jobs: 0,
        profiles: seq![],
        skip_hooks: seq![],
        skip_steps: seq![],
        exclude: seq![],
        warnings: seq![],
        hide_warnings: seq![],
        display_skip_reasons: seq!["profile-not-enabled"@],
        fail_fast: true,
        check: false,
        fix: true,
        quiet: false,
        silent: false,
        walk_ignore: true,
        stage: None,
    }
}

/// An optional flag as a field.
pub open spec fn opt_flag_field(b: Option<bool>) -> FieldValueView {
    match b {
        Some(b) => FieldValueView::Bool(b),
        None => FieldValueView::Null,
    }
}

/// Fields with one more: as [`put`], kept folded.
#[verifier::opaque]
pub open spec fn put_field(
    e: Seq<(Seq<char>, FieldValueView)>,
    k: Seq<char>,
    v: FieldValueView,
) -> Seq<(Seq<char>, FieldValueView)> {
    put(e, k, v)
}

proof fn lemma_put_field(
    e: Seq<(Seq<char>, FieldValueView)>,
    k: Seq<char>,
    v: FieldValueView,
    x: Seq<char>,
)
    ensures
        lookup(put_field(e, k, v), x) == if x == k {
            Some(v)
        } else {
            lookup(e, x)
        },
{
    reveal(put_field);
    lemma_lookup_put(e, k, v, x);
}

fn set_field(fields: &mut Table<FieldValue>, name: &str, value: FieldValue)
    ensures
        final(fields)@ == put_field(old(fields)@, name@, value@),
{
    reveal(put_field);
    fields.insert(name.to_owned(), value);
}

/// The settings as fields.
pub open spec fn settings_fields(s: SettingsView) -> Seq<(Seq<char>, FieldValueView)> {
    let f0 = Seq::<(Seq<char>, FieldValueView)>::empty();
    let f1 = put_field(f0, "jobs"@, FieldValueView::Number(s.jobs));
    let f2 = put_field(f1, "profiles"@, FieldValueView::List(s.profiles));
    let f3 = put_field(f2, "skip_hooks"@, FieldValueView::List(s.skip_hooks));
    let f4 = put_field(f3, "skip_steps"@, FieldValueView::List(s.skip_steps));
    let f5 = put_field(f4, "exclude"@, FieldValueView::List(s.exclude));
    let f6 = put_field(f5, "warnings"@, FieldValueView::List(s.warnings));
    let f7 = put_field(f6, "hide_warnings"@, FieldValueView::List(s.hide_warnings));
    let f8 = put_field(f7, "display_skip_reasons"@, FieldValueView::List(s.display_skip_reasons));
    let f9 = put_field(f8, "fail_fast"@, FieldValueView::Bool(s.fail_fast));
    let f10 = put_field(f9, "check"@, FieldValueView::Bool(s.check));
    let f11 = put_field(f10, "fix"@, FieldValueView::Bool(s.fix));
    let f12 = put_field(f11, "quiet"@, FieldValueView::Bool(s.quiet));
    let f13 = put_field(f12, "silent"@, FieldValueView::Bool(s.silent));
    let f14 = put_field(f13, "walk_ignore"@, FieldValueView::Bool(s.walk_ignore));
    let f15 = put_field(f14, "stage"@, opt_flag_field(s.stage));
    f15
}

/// The flag that a field holds.
pub open spec fn flag_field(
    fields: Seq<(Seq<char>, FieldValueView)>,
    name: Seq<char>,
) -> Option<bool> {
    match lookup(fields, name) {
        Some(FieldValueView::Bool(b)) => Some(b),
        _ => None,
    }
}

/// The number that a field holds.
pub open spec fn number_field(
    fields: Seq<(Seq<char>, FieldValueView)>,
    name: Seq<char>,
) -> Option<usize> {
    match lookup(fields, name) {
        Some(FieldValueView::Number(n)) => Some(n),
        _ => None,
    }
}

/// The distinct texts that a field holds.
pub open spec fn names_field(
    fields: Seq<(Seq<char>, FieldValueView)>,
    name: Seq<char>,
) -> Option<Seq<Seq<char>>> {
    match lookup(fields, name) {
        Some(FieldValueView::List(l)) => Some(push_all_new(seq![], l)),
        _ => None,
    }
}

/// The optional flag that a field holds.
pub open spec fn opt_flag_of(
    fields: Seq<(Seq<char>, FieldValueView)>,
    name: Seq<char>,
) -> Option<Option<bool>> {
    match lookup(fields, name) {
        Some(FieldValueView::Bool(b)) => Some(Some(b)),
        Some(FieldValueView::Null) => Some(None),
        None => Some(None),
        _ => None,
    }
}

/// The settings that fields stand for, where every field has its type.
pub open spec fn settings_of(fields: Seq<(Seq<char>, FieldValueView)>) -> Option<SettingsView> {
    if number_field(fields, "jobs"@) is Some && names_field(fields, "profiles"@) is Some && names_field(fields, "skip_hooks"@) is Some && names_field(fields, "skip_steps"@) is Some && names_field(fields, "exclude"@) is Some && names_field(fields, "warnings"@) is Some && names_field(fields, "hide_warnings"@) is Some && names_field(fields, "display_skip_reasons"@) is Some && flag_field(fields, "fail_fast"@) is Some && flag_field(fields, "check"@) is Some && flag_field(fields, "fix"@) is Some && flag_field(fields, "quiet"@) is Some && flag_field(fields, "silent"@) is Some && flag_field(fields, "walk_ignore"@) is Some && opt_flag_of(fields, "stage"@) is Some {
        Some(
            SettingsView {
                jobs: number_field(fields, "jobs"@)->0,
                profiles: names_field(fields, "profiles"@)->0,
                skip_hooks: names_field(fields, "skip_hooks"@)->0,
                skip_steps: names_field(fields, "skip_steps"@)->0,
                exclude: names_field(fields, "exclude"@)->0,
                warnings: names_field(fields, "warnings"@)->0,
                hide_warnings: names_field(fields, "hide_warnings"@)->0,
                display_skip_reasons: names_field(fields, "display_skip_reasons"@)->0,
                fail_fast: flag_field(fields, "fail_fast"@)->0,
                check: flag_field(fields, "check"@)->0,
                fix: flag_field(fields, "fix"@)->0,
                quiet: flag_field(fields, "quiet"@)->0,
                silent: flag_field(fields, "silent"@)->0,
                walk_ignore: flag_field(fields, "walk_ignore"@)->0,
                stage: opt_flag_of(fields, "stage"@)->0,
            },
        )
    } else {
        None
    }
}

fn read_flag(fields: &Table<FieldValue>, name: &str) -> (r: Option<bool>)
    ensures
        r == flag_field(fields@, name@),
{
    match fields.get(name) {
        Some(FieldValue::Bool(b)) => Some(*b),
        _ => None,
    }
}

fn read_number(fields: &Table<FieldValue>, name: &str) -> (r: Option<usize>)
    ensures
        r == number_field(fields@, name@),
{
    match fields.get(name) {
        Some(FieldValue::Number(n)) => Some(*n),
        _ => None,
    }
}

fn read_names(fields: &Table<FieldValue>, name: &str) -> (r: Option<NameSet>)
    ensures
        crate::seqs::opt_view(r) == names_field(fields@, name@),
{
    match fields.get(name) {
        Some(FieldValue::List(l)) => Some(NameSet::of(l)),
        _ => None,
    }
}

fn read_opt_flag(fields: &Table<FieldValue>, name: &str) -> (r: Option<Option<bool>>)
    ensures
        r == opt_flag_of(fields@, name@),
{
    match fields.get(name) {
        Some(FieldValue::Bool(b)) => Some(Some(*b)),
        Some(FieldValue::Null) => Some(None),
        None => Some(None),
        _ => None,
    }
}

impl Settings {
    /// The settings as fields.
    pub fn to_fields(&self) -> (r: Table<FieldValue>)
        ensures
            r@ == settings_fields(self@),
    {
        let mut f: Table<FieldValue> = Table::new();
        set_field(&mut f, "jobs", FieldValue::Number(self.jobs));
        set_field(&mut f, "profiles", FieldValue::List(self.profiles.to_list()));
        set_field(&mut f, "skip_hooks", FieldValue::List(self.skip_hooks.to_list()));
        set_field(&mut f, "skip_steps", FieldValue::List(self.skip_steps.to_list()));
        set_field(&mut f, "exclude", FieldValue::List(self.exclude.to_list()));
        set_field(&mut f, "warnings", FieldValue::List(self.warnings.to_list()));
        set_field(&mut f, "hide_warnings", FieldValue::List(self.hide_warnings.to_list()));
        set_field(&mut f, "display_skip_reasons", FieldValue::List(self.display_skip_reasons.to_list()));
        set_field(&mut f, "fail_fast", FieldValue::Bool(self.fail_fast));
        set_field(&mut f, "check", FieldValue::Bool(self.check));
        set_field(&mut f, "fix", FieldValue::Bool(self.fix));
        set_field(&mut f, "quiet", FieldValue::Bool(self.quiet));
        set_field(&mut f, "silent", FieldValue::Bool(self.silent));
        set_field(&mut f, "walk_ignore", FieldValue::Bool(self.walk_ignore));
        let stage = match self.stage {
            Some(b) => FieldValue::Bool(b),
            None => FieldValue::Null,
        };
        set_field(&mut f, "stage", stage);
        f
    }

    /// The settings that fields stand for, where every field has its type.
    pub fn from_fields(fields: &Table<FieldValue>) -> (r: Option<Settings>)
        ensures
            crate::seqs::opt_view(r) == settings_of(fields@),
    {
        let jobs: usize = match read_number(fields, "jobs") {
            Some(v) => v,
            None => {
                return None;
            },
        };
        let profiles = match read_names(fields, "profiles") {
            Some(v) => v,
            None => {
                return None;
            },
        };
        let skip_hooks = match read_names(fields, "skip_hooks") {
            Some(v) => v,
            None => {
                return None;
            },
        };
        let skip_steps = match read_names(fields, "skip_steps") {
            Some(v) => v,
            None => {
                return None;
            },
        };
        let exclude = match read_names(fields, "exclude") {
            Some(v) => v,
            None => {
                return None;
            },
        };
        let warnings = match read_names(fields, "warnings") {
            Some(v) => v,
            None => {
                return None;
            },
        };
        let hide_warnings = match read_names(fields, "hide_warnings") {
            Some(v) => v,
            None => {
                return None;
            },
        };
        let display_skip_reasons = match read_names(fields, "display_skip_reasons") {
            Some(v) => v,
            None => {
                return None;
            },
        };
        let fail_fast = match read_flag(fields, "fail_fast") {
            Some(v) => v,
            None => {
                return None;
            },
        };
        let check = match read_flag(fields, "check") {
            Some(v) => v,
            None => {
                return None;
            },
        };
        let fix = match read_flag(fields, "fix") {
            Some(v) => v,
            None => {
                return None;
            },
        };
        let quiet = match read_flag(fields, "quiet") {
            Some(v) => v,
            None => {
                return None;
            },
        };
        let silent = match read_flag(fields, "silent") {
            Some(v) => v,
            None => {
                return None;
            },
        };
        let walk_ignore = match read_flag(fields, "walk_ignore") {
            Some(v) => v,
            None => {
                return None;
            },
        };
        let stage = match read_opt_flag(fields, "stage") {
            Some(v) => v,
            None => {
                return None;
            },
        };
        Some(
            Settings {
                jobs,
                profiles,
                skip_hooks,
                skip_steps,
                exclude,
                warnings,
                hide_warnings,
                display_skip_reasons,
                fail_fast,
                check,
                fix,
                quiet,
                silent,
                walk_ignore,
                stage,
            },
        )
    }

    /// Merges the sources over the defaults. Where the merged fields do not
    /// have the types of the settings, the defaults stand.
    pub fn merge_settings_generic(
        meta: &Table<SettingMeta>,
        defaults: &Settings,
        env: &Table<SettingValue>,
        git: &Table<SettingValue>,
        pkl: &Table<SettingValue>,
        cli: &Table<SettingValue>,
    ) -> (r: Settings)
        ensures
            r@ == merged_settings(
                meta@,
                defaults@,
                (Sources { pkl: pkl@, git: git@, env: env@, cli: cli@ }),
            ),
    {
        let fields = merge_fields(meta, &defaults.to_fields(), env, git, pkl, cli);
        match Settings::from_fields(&fields) {
            Some(s) => s,
            None => defaults.dup(),
        }
    }

    /// Merges the sources over the defaults and says where each value came from.
    pub fn merge_settings_with_sources_generic(
        meta: &Table<SettingMeta>,
        defaults: &Settings,
        env: &Table<SettingValue>,
        git: &Table<SettingValue>,
        pkl: &Table<SettingValue>,
        cli: &Table<SettingValue>,
    ) -> (r: (Settings, Table<SourceInfo>))
        ensures
            r.0@ == merged_settings(
                meta@,
                defaults@,
                (Sources { pkl: pkl@, git: git@, env: env@, cli: cli@ }),
            ),
            r.1@ == merged_info(
                meta@,
                defaults_informed(meta@, settings_fields(defaults@)),
                (Sources { pkl: pkl@, git: git@, env: env@, cli: cli@ }),
            ),
    {
        let (fields, info) = merge_fields_with_sources(
            meta,
            &defaults.to_fields(),
            env,
            git,
            pkl,
            cli,
        );
        let settings = match Settings::from_fields(&fields) {
            Some(s) => s,
            None => defaults.dup(),
        };
        (settings, info)
    }

    /// How many jobs may run at once: the setting, or the `available` parallelism
    /// where the setting is zero.
    pub fn jobs(&self, available: usize) -> (r: usize)
        requires
            available > 0,
        ensures
            r == if self@.jobs > 0 {
                self@.jobs
            } else {
                available
            },
            r > 0,
    {
        if self.jobs > 0 {
            self.jobs
        } else {
            available
        }
    }

    /// The profiles that are enabled: those without an exclamation mark.
    pub fn enabled_profiles(&self) -> (r: NameSet)
        ensures
            r@ == push_all_new(seq![], unmarked(self@.profiles)),
    {
        let mut out: Vec<String> = Vec::new();
        let n: usize = self.profiles.len();
        assert(texts(out@) =~= unmarked(self@.profiles.take(0)));
        for i in 0..n
            invariant
                n == self.profiles@.len(),
                texts(out@) == unmarked(self@.profiles.take(i as int)),
        {
            if !starts_with(self.profiles.at(i).as_str(), "!") {
                out.push(self.profiles.at(i).clone());
            }
        }
        assert(self@.profiles.take(n as int) =~= self@.profiles);
        NameSet::of(&out)
    }

    /// The profiles that are disabled: those behind an exclamation mark.
    pub fn disabled_profiles(&self) -> (r: NameSet)
        ensures
            r@ == push_all_new(seq![], marked(self@.profiles)),
    {
        let mut out: Vec<String> = Vec::new();
        let n: usize = self.profiles.len();
        proof {
            reveal_strlit("!");
        }
        assert(texts(out@) =~= marked(self@.profiles.take(0)));
        for i in 0..n
            invariant
                n == self.profiles@.len(),
                "!"@.len() == 1,
                texts(out@) == marked(self@.profiles.take(i as int)),
        {
            if let Some(rest) = crate::text::strip_prefix(self.profiles.at(i).as_str(), "!") {
                out.push(rest);
            }
        }
        assert(self@.profiles.take(n as int) =~= self@.profiles);
        NameSet::of(&out)
    }
}

/// The names that do not begin with an exclamation mark.
pub open spec fn unmarked(names: Seq<Seq<char>>) -> Seq<Seq<char>>
    decreases names.len(),
{
    if names.len() == 0 {
        seq![]
    } else {
        let before = unmarked(names.drop_last());
        if starts(names.last(), "!"@) {
            before
        } else {
            before.push(names.last())
        }
    }
}

/// What stands behind the exclamation mark of the names that begin with one.
pub open spec fn marked(names: Seq<Seq<char>>) -> Seq<Seq<char>>
    decreases names.len(),
{
    if names.len() == 0 {
        seq![]
    } else {
        let before = marked(names.drop_last());
        if starts(names.last(), "!"@) {
            before.push(crate::text::after(names.last(), 1))
        } else {
            before
        }
    }
}

/// The settings after every source has had its say.
pub open spec fn merged_settings(
    meta: Seq<(Seq<char>, SettingMetaView)>,
    defaults: SettingsView,
    s: Sources,
) -> SettingsView {
    match settings_of(merged_fields(meta, settings_fields(defaults), s)) {
        Some(settings) => settings,
        None => defaults,
    }
}

/// The field names differ from each other.
proof fn lemma_field_names()
    ensures
        "jobs"@ != "profiles"@,
        "jobs"@ != "skip_hooks"@,
        "jobs"@ != "skip_steps"@,
        "jobs"@ != "exclude"@,
        "jobs"@ != "warnings"@,
        "jobs"@ != "hide_warnings"@,
        "jobs"@ != "display_skip_reasons"@,
        "jobs"@ != "fail_fast"@,
        "jobs"@ != "check"@,
        "jobs"@ != "fix"@,
        "jobs"@ != "quiet"@,
        "jobs"@ != "silent"@,
        "jobs"@ != "walk_ignore"@,
        "jobs"@ != "stage"@,
        "profiles"@ != "skip_hooks"@,
        "profiles"@ != "skip_steps"@,
        "profiles"@ != "exclude"@,
        "profiles"@ != "warnings"@,
        "profiles"@ != "hide_warnings"@,
        "profiles"@ != "display_skip_reasons"@,
        "profiles"@ != "fail_fast"@,
        "profiles"@ != "check"@,
        "profiles"@ != "fix"@,
        "profiles"@ != "quiet"@,
        "profiles"@ != "silent"@,
        "profiles"@ != "walk_ignore"@,
        "profiles"@ != "stage"@,
        "skip_hooks"@ != "skip_steps"@,
        "skip_hooks"@ != "exclude"@,
        "skip_hooks"@ != "warnings"@,
        "skip_hooks"@ != "hide_warnings"@,
        "skip_hooks"@ != "display_skip_reasons"@,
        "skip_hooks"@ != "fail_fast"@,
        "skip_hooks"@ != "check"@,
        "skip_hooks"@ != "fix"@,
        "skip_hooks"@ != "quiet"@,
        "skip_hooks"@ != "silent"@,
        "skip_hooks"@ != "walk_ignore"@,
        "skip_hooks"@ != "stage"@,
        "skip_steps"@ != "exclude"@,
        "skip_steps"@ != "warnings"@,
        "skip_steps"@ != "hide_warnings"@,
        "skip_steps"@ != "display_skip_reasons"@,
        "skip_steps"@ != "fail_fast"@,
        "skip_steps"@ != "check"@,
        "skip_steps"@ != "fix"@,
        "skip_steps"@ != "quiet"@,
        "skip_steps"@ != "silent"@,
        "skip_steps"@ != "walk_ignore"@,
        "skip_steps"@ != "stage"@,
        "exclude"@ != "warnings"@,
        "exclude"@ != "hide_warnings"@,
        "exclude"@ != "display_skip_reasons"@,
        "exclude"@ != "fail_fast"@,
        "exclude"@ != "check"@,
        "exclude"@ != "fix"@,
        "exclude"@ != "quiet"@,
        "exclude"@ != "silent"@,
        "exclude"@ != "walk_ignore"@,
        "exclude"@ != "stage"@,
        "warnings"@ != "hide_warnings"@,
        "warnings"@ != "display_skip_reasons"@,
        "warnings"@ != "fail_fast"@,
        "warnings"@ != "check"@,
        "warnings"@ != "fix"@,
        "warnings"@ != "quiet"@,
        "warnings"@ != "silent"@,
        "warnings"@ != "walk_ignore"@,
        "warnings"@ != "stage"@,
        "hide_warnings"@ != "display_skip_reasons"@,
        "hide_warnings"@ != "fail_fast"@,
        "hide_warnings"@ != "check"@,
        "hide_warnings"@ != "fix"@,
        "hide_warnings"@ != "quiet"@,
        "hide_warnings"@ != "silent"@,
        "hide_warnings"@ != "walk_ignore"@,
        "hide_warnings"@ != "stage"@,
        "display_skip_reasons"@ != "fail_fast"@,
        "display_skip_reasons"@ != "check"@,
        "display_skip_reasons"@ != "fix"@,
        "display_skip_reasons"@ != "quiet"@,
        "display_skip_reasons"@ != "silent"@,
        "display_skip_reasons"@ != "walk_ignore"@,
        "display_skip_reasons"@ != "stage"@,
        "fail_fast"@ != "check"@,
        "fail_fast"@ != "fix"@,
        "fail_fast"@ != "quiet"@,
        "fail_fast"@ != "silent"@,
        "fail_fast"@ != "walk_ignore"@,
        "fail_fast"@ != "stage"@,
        "check"@ != "fix"@,
        "check"@ != "quiet"@,
        "check"@ != "silent"@,
        "check"@ != "walk_ignore"@,
        "check"@ != "stage"@,
        "fix"@ != "quiet"@,
        "fix"@ != "silent"@,
        "fix"@ != "walk_ignore"@,
        "fix"@ != "stage"@,
        "quiet"@ != "silent"@,
        "quiet"@ != "walk_ignore"@,
        "quiet"@ != "stage"@,
        "silent"@ != "walk_ignore"@,
        "silent"@ != "stage"@,
        "walk_ignore"@ != "stage"@,
{
    reveal_strlit("jobs");
    reveal_strlit("profiles");
    reveal_strlit("skip_hooks");
    reveal_strlit("skip_steps");
    reveal_strlit("exclude");
    reveal_strlit("warnings");
    reveal_strlit("hide_warnings");
    reveal_strlit("display_skip_reasons");
    reveal_strlit("fail_fast");
    reveal_strlit("check");
    reveal_strlit("fix");
    reveal_strlit("quiet");
    reveal_strlit("silent");
    reveal_strlit("walk_ignore");
    reveal_strlit("stage");
    assert("jobs"@.len() == 4 && "profiles"@.len() == 8 && "skip_hooks"@.len() == 10 && "skip_steps"@.len() == 10 && "exclude"@.len() == 7 && "warnings"@.len() == 8 && "hide_warnings"@.len() == 13 && "display_skip_reasons"@.len() == 20 && "fail_fast"@.len() == 9 && "check"@.len() == 5 && "fix"@.len() == 3 && "quiet"@.len() == 5 && "silent"@.len() == 6 && "walk_ignore"@.len() == 11 && "stage"@.len() == 5);
    assert("profiles"@[0] != "warnings"@[0]);
    assert("skip_hooks"@[5] != "skip_steps"@[5]);
    assert("check"@[0] != "quiet"@[0]);
    assert("check"@[0] != "stage"@[0]);
    assert("quiet"@[0] != "stage"@[0]);
}

proof fn lemma_push_all_new_distinct(s: Seq<Seq<char>>)
    requires
        s.no_duplicates(),
    ensures
        push_all_new(seq![], s) == s,
    decreases s.len(),
{
    if s.len() > 0 {
        let init = s.drop_last();
        lemma_push_all_new_distinct(init);
        assert(!init.contains(s.last())) by {
            if init.contains(s.last()) {
                let i = choose|i: int| 0 <= i < init.len() && init[i] == s.last();
                assert(s[i] == s[s.len() - 1]);
            }
        }
        assert(init.push(s.last()) =~= s);
    }
}

/// The value of the field `x` of the settings.
spec fn field_value(s: SettingsView, x: Seq<char>) -> Option<FieldValueView> {
    if x == "stage"@ {
        Some(opt_flag_field(s.stage))
    } else if x == "walk_ignore"@ {
        Some(FieldValueView::Bool(s.walk_ignore))
    } else if x == "silent"@ {
        Some(FieldValueView::Bool(s.silent))
    } else if x == "quiet"@ {
        Some(FieldValueView::Bool(s.quiet))
    } else if x == "fix"@ {
        Some(FieldValueView::Bool(s.fix))
    } else if x == "check"@ {
        Some(FieldValueView::Bool(s.check))
    } else if x == "fail_fast"@ {
        Some(FieldValueView::Bool(s.fail_fast))
    } else if x == "display_skip_reasons"@ {
        Some(FieldValueView::List(s.display_skip_reasons))
    } else if x == "hide_warnings"@ {
        Some(FieldValueView::List(s.hide_warnings))
    } else if x == "warnings"@ {
        Some(FieldValueView::List(s.warnings))
    } else if x == "exclude"@ {
        Some(FieldValueView::List(s.exclude))
    } else if x == "skip_steps"@ {
        Some(FieldValueView::List(s.skip_steps))
    } else if x == "skip_hooks"@ {
        Some(FieldValueView::List(s.skip_hooks))
    } else if x == "profiles"@ {
        Some(FieldValueView::List(s.profiles))
    } else if x == "jobs"@ {
        Some(FieldValueView::Number(s.jobs))
    } else {
        None
    }
}

proof fn lemma_settings_field(s: SettingsView, x: Seq<char>)
    ensures
        lookup(settings_fields(s), x) == field_value(s, x),
{
    let f0 = Seq::<(Seq<char>, FieldValueView)>::empty();
    let f1 = put_field(f0, "jobs"@, FieldValueView::Number(s.jobs));
    let f2 = put_field(f1, "profiles"@, FieldValueView::List(s.profiles));
    let f3 = put_field(f2, "skip_hooks"@, FieldValueView::List(s.skip_hooks));
    let f4 = put_field(f3, "skip_steps"@, FieldValueView::List(s.skip_steps));
    let f5 = put_field(f4, "exclude"@, FieldValueView::List(s.exclude));
    let f6 = put_field(f5, "warnings"@, FieldValueView::List(s.warnings));
    let f7 = put_field(f6, "hide_warnings"@, FieldValueView::List(s.hide_warnings));
    let f8 = put_field(f7, "display_skip_reasons"@, FieldValueView::List(s.display_skip_reasons));
    let f9 = put_field(f8, "fail_fast"@, FieldValueView::Bool(s.fail_fast));
    let f10 = put_field(f9, "check"@, FieldValueView::Bool(s.check));
    let f11 = put_field(f10, "fix"@, FieldValueView::Bool(s.fix));
    let f12 = put_field(f11, "quiet"@, FieldValueView::Bool(s.quiet));
    let f13 = put_field(f12, "silent"@, FieldValueView::Bool(s.silent));
    let f14 = put_field(f13, "walk_ignore"@, FieldValueView::Bool(s.walk_ignore));
    lemma_put_field(f0, "jobs"@, FieldValueView::Number(s.jobs), x);
    lemma_put_field(f1, "profiles"@, FieldValueView::List(s.profiles), x);
    lemma_put_field(f2, "skip_hooks"@, FieldValueView::List(s.skip_hooks), x);
    lemma_put_field(f3, "skip_steps"@, FieldValueView::List(s.skip_steps), x);
    lemma_put_field(f4, "exclude"@, FieldValueView::List(s.exclude), x);
    lemma_put_field(f5, "warnings"@, FieldValueView::List(s.warnings), x);
    lemma_put_field(f6, "hide_warnings"@, FieldValueView::List(s.hide_warnings), x);
    lemma_put_field(f7, "display_skip_reasons"@, FieldValueView::List(s.display_skip_reasons), x);
    lemma_put_field(f8, "fail_fast"@, FieldValueView::Bool(s.fail_fast), x);
    lemma_put_field(f9, "check"@, FieldValueView::Bool(s.check), x);
    lemma_put_field(f10, "fix"@, FieldValueView::Bool(s.fix), x);
    lemma_put_field(f11, "quiet"@, FieldValueView::Bool(s.quiet), x);
    lemma_put_field(f12, "silent"@, FieldValueView::Bool(s.silent), x);
    lemma_put_field(f13, "walk_ignore"@, FieldValueView::Bool(s.walk_ignore), x);
    lemma_put_field(f14, "stage"@, opt_flag_field(s.stage), x);
}

/// Settings read back from their own fields are the same settings, where their
/// lists repeat nothing.
pub proof fn law_fields_round_trip(s: SettingsView)
    requires
        s.profiles.no_duplicates(),
        s.skip_hooks.no_duplicates(),
        s.skip_steps.no_duplicates(),
        s.exclude.no_duplicates(),
        s.warnings.no_duplicates(),
        s.hide_warnings.no_duplicates(),
        s.display_skip_reasons.no_duplicates(),
    ensures
        settings_of(settings_fields(s)) == Some(s),
{
    lemma_field_names();
    lemma_settings_field(s, "jobs"@);
    lemma_settings_field(s, "profiles"@);
    lemma_settings_field(s, "skip_hooks"@);
    lemma_settings_field(s, "skip_steps"@);
    lemma_settings_field(s, "exclude"@);
    lemma_settings_field(s, "warnings"@);
    lemma_settings_field(s, "hide_warnings"@);
    lemma_settings_field(s, "display_skip_reasons"@);
    lemma_settings_field(s, "fail_fast"@);
    lemma_settings_field(s, "check"@);
    lemma_settings_field(s, "fix"@);
    lemma_settings_field(s, "quiet"@);
    lemma_settings_field(s, "silent"@);
    lemma_settings_field(s, "walk_ignore"@);
    lemma_settings_field(s, "stage"@);
    lemma_push_all_new_distinct(s.profiles);
    lemma_push_all_new_distinct(s.skip_hooks);
    lemma_push_all_new_distinct(s.skip_steps);
    lemma_push_all_new_distinct(s.exclude);
    lemma_push_all_new_distinct(s.warnings);
    lemma_push_all_new_distinct(s.hide_warnings);
    lemma_push_all_new_distinct(s.display_skip_reasons);
}

/// Where no source says anything, the merged settings are the defaults.
pub proof fn law_silent_sources_keep_defaults(
    meta: Seq<(Seq<char>, SettingMetaView)>,
    defaults: SettingsView,
)
    requires
        defaults.profiles.no_duplicates(),
        defaults.skip_hooks.no_duplicates(),
        defaults.skip_steps.no_duplicates(),
        defaults.exclude.no_duplicates(),
        defaults.warnings.no_duplicates(),
        defaults.hide_warnings.no_duplicates(),
        defaults.display_skip_reasons.no_duplicates(),
    ensures
        merged_settings(meta, defaults, Sources { pkl: seq![], git: seq![], env: seq![], cli: seq![] })
            == defaults,
    decreases meta.len(),
{
    lemma_no_sources(meta, settings_fields(defaults));
    law_fields_round_trip(defaults);
}

proof fn lemma_no_sources(
    meta: Seq<(Seq<char>, SettingMetaView)>,
    fields: Seq<(Seq<char>, FieldValueView)>,
)
    ensures
        merged_fields(meta, fields, Sources { pkl: seq![], git: seq![], env: seq![], cli: seq![] })
            == fields,
    decreases meta.len(),
{
    if meta.len() > 0 {
        lemma_no_sources(meta.drop_last(), fields);
    }
}

/// How a value of a setting is shown.
pub open spec fn shown_value(v: SettingValueView) -> Seq<char> {
    match v {
        SettingValueView::Bool(b) => if b {
            "true"@
        } else {
            "false"@
        },
        SettingValueView::Usize(n) => decimal(n as nat),
        SettingValueView::U8(n) => decimal(n as nat),
        SettingValueView::String(s) => s,
        SettingValueView::Path(p) => p,
        SettingValueView::StringList(l) => "{"@ + joined(
            l.map_values(|s: Seq<char>| quoted_debug(s)),
            ", "@,
        ) + "}"@,
    }
}

/// How a value of a setting is shown.
pub fn show_value(v: &SettingValue) -> (r: String)
    ensures
        r@ == shown_value(v@),
{
    match v {
        SettingValue::Bool(b) => if *b {
            "true".to_owned()
        } else {
            "false".to_owned()
        },
        SettingValue::Usize(n) => show_usize(*n),
        SettingValue::U8(n) => show_usize(*n as usize),
        SettingValue::String(s) => s.clone(),
        SettingValue::Path(p) => p.clone(),
        SettingValue::StringList(l) => {
            let mut items: Vec<String> = Vec::new();
            let n: usize = l.len();
            for i in 0..n
                invariant
                    n == l@.len(),
                    texts(items@) =~= l@.map_values(|s: Seq<char>| quoted_debug(s)).take(i as int),
            {
                items.push(debug_text(l.at(i).as_str()));
            }
            assert(texts(items@) =~= l@.map_values(|s: Seq<char>| quoted_debug(s)));
            let mut out = "{".to_owned();
            out.append(crate::text::join(&items, ", ").as_str());
            out.append("}");
            out
        },
    }
}

/// The names under which each source knows the setting that is explained.
pub struct SourceIds {
    pub env: Option<Seq<char>>,
    pub git: Option<Seq<char>>,
    pub pkl: Option<Seq<char>>,
    pub cli: Option<Seq<char>>,
}

/// `label`, with the name in brackets behind it where there is one.
pub open spec fn labelled(label: Seq<char>, id: Option<Seq<char>>) -> Seq<char> {
    match id {
        Some(id) => label + "("@ + id + ")"@,
        None => label,
    }
}

/// How a source is shown.
pub open spec fn shown_source(s: SettingSource, ids: SourceIds) -> Seq<char> {
    match s {
        SettingSource::Defaults => "defaults"@,
        SettingSource::Env => labelled("env"@, ids.env),
        SettingSource::Git => labelled("git"@, ids.git),
        SettingSource::Pkl => labelled("pkl"@, ids.pkl),
        SettingSource::Cli => labelled("cli"@, ids.cli),
    }
}

struct ShownIds {
    env: Option<String>,
    git: Option<String>,
    pkl: Option<String>,
    cli: Option<String>,
}

fn label(name: &str, id: &Option<String>) -> (r: String)
    ensures
        r@ == labelled(name@, opt_text(*id)),
{
    let mut out = name.to_owned();
    if let Some(id) = id {
        out.append("(");
        out.append(id.as_str());
        out.append(")");
    }
    out
}

impl ShownIds {
    spec fn ids(&self) -> SourceIds {
        SourceIds {
            env: opt_text(self.env),
            git: opt_text(self.git),
            pkl: opt_text(self.pkl),
            cli: opt_text(self.cli),
        }
    }

    fn show(&self, s: SettingSource) -> (r: String)
        ensures
            r@ == shown_source(s, self.ids()),
    {
        match s {
            SettingSource::Defaults => "defaults".to_owned(),
            SettingSource::Env => label("env", &self.env),
            SettingSource::Git => label("git", &self.git),
            SettingSource::Pkl => label("pkl", &self.pkl),
            SettingSource::Cli => label("cli", &self.cli),
        }
    }
}

/// The lines on one source: the names that it knows the setting by, its value
/// and the source that spoke last. A source that does not know the setting has none.
pub open spec fn source_lines(
    title: Seq<char>,
    names: Seq<Seq<char>>,
    value: Option<SettingValueView>,
    last: Option<Seq<char>>,
) -> Seq<char> {
    if names.len() == 0 {
        seq![]
    } else {
        let head = "  "@ + title + ": "@ + joined(names, ", "@) + "\n"@;
        let with_value = match value {
            Some(v) => head + "    ✓ Set to: "@ + shown_value(v) + "\n"@,
            None => head,
        };
        match last {
            Some(source) => with_value + "    Source: "@ + source + "\n"@,
            None => with_value,
        }
    }
}

fn write_source(
    title: &str,
    names: &Vec<String>,
    value: Option<&SettingValue>,
    last: &Option<String>,
) -> (r: String)
    ensures
        r@ == source_lines(
            title@,
            texts(names@),
            match value {
                Some(v) => Some(v@),
                None => None,
            },
            opt_text(*last),
        ),
{
    if names.len() == 0 {
        return String::new();
    }
    let mut out = "  ".to_owned();
    out.append(title);
    out.append(": ");
    out.append(crate::text::join(names, ", ").as_str());
    out.append("\n");
    if let Some(v) = value {
        out.append("    ✓ Set to: ");
        out.append(show_value(v).as_str());
        out.append("\n");
    }
    if let Some(source) = last {
        out.append("    Source: ");
        out.append(source.as_str());
        out.append("\n");
    }
    out
}

/// The line on one item of a list and its sources.
pub open spec fn item_line(
    item: (Seq<char>, Seq<SettingSource>),
    ids: SourceIds,
) -> Seq<char> {
    "    - "@ + item.0 + ": "@ + joined(
        item.1.map_values(|s: SettingSource| shown_source(s, ids)),
        ", "@,
    ) + "\n"@
}

/// The lines on the items of a list.
pub open spec fn item_lines(
    items: Seq<(Seq<char>, Seq<SettingSource>)>,
    ids: SourceIds,
) -> Seq<char>
    decreases items.len(),
{
    if items.len() == 0 {
        seq![]
    } else {
        item_lines(items.drop_last(), ids) + item_line(items.last(), ids)
    }
}

fn write_items(items: &Table<Vec<SettingSource>>, ids: &ShownIds) -> (r: String)
    ensures
        r@ == item_lines(items@, ids.ids()),
{
    let mut out = String::new();
    let n: usize = items.len();
    for i in 0..n
        invariant
            n == items@.len(),
            out@ == item_lines(items@.take(i as int), ids.ids()),
    {
        let sources = items.value_at(i);
        let mut shown: Vec<String> = Vec::new();
        for j in 0..sources.len()
            invariant
                texts(shown@) =~= sources@.map_values(
                    |s: SettingSource| shown_source(s, ids.ids()),
                ).take(j as int),
        {
            shown.push(ids.show(sources[j]));
        }
        assert(texts(shown@) =~= sources@.map_values(
            |s: SettingSource| shown_source(s, ids.ids()),
        ));
        let mut line = "    - ".to_owned();
        line.append(items.key_at(i).as_str());
        line.append(": ");
        line.append(crate::text::join(&shown, ", ").as_str());
        line.append("\n");
        out.append(line.as_str());
    }
    assert(items@.take(n as int) =~= items@);
    out
}

/// The first of `names`, where the source speaks of the setting.
pub open spec fn first_name(
    map: Seq<(Seq<char>, SettingValueView)>,
    field: Seq<char>,
    names: Seq<Seq<char>>,
) -> Option<Seq<char>> {
    if has_key(map, field) && names.len() > 0 {
        Some(names[0])
    } else {
        None
    }
}

fn name_where_set(map: &Table<SettingValue>, field: &str, names: &Vec<String>) -> (r: Option<String>)
    ensures
        opt_text(r) == first_name(map@, field@, texts(names@)),
{
    if map.contains_key(field) && names.len() > 0 {
        Some(names[0].clone())
    } else {
        None
    }
}

/// The first of `names` that is set.
pub open spec fn first_of_set(names: Seq<Seq<char>>, set: Seq<Seq<char>>) -> Option<Seq<char>>
    decreases names.len(),
{
    if names.len() == 0 {
        None
    } else {
        match first_of_set(names.drop_last(), set) {
            Some(n) => Some(n),
            None => if set.contains(names.last()) {
                Some(names.last())
            } else {
                None
            },
        }
    }
}

fn pick_set(names: &Vec<String>, set: &NameSet) -> (r: Option<String>)
    ensures
        opt_text(r) == first_of_set(texts(names@), set@),
{
    let ghost all = texts(names@);
    let mut found: Option<String> = None;
    for i in 0..names.len()
        invariant
            all == texts(names@),
            opt_text(found) == first_of_set(all.take(i as int), set@),
    {
        assert(all.take(i + 1).drop_last() =~= all.take(i as int));
        assert(all.take(i + 1).last() == names@[i as int]@);
        if found.is_none() && set.contains(names[i].as_str()) {
            found = Some(names[i].clone());
        }
    }
    assert(all.take(names@.len() as int) =~= all);
    found
}

/// The explanation of where the setting `key` has its value from.
pub open spec fn explanation(
    key: Seq<char>,
    field: Seq<char>,
    meta: SettingMetaView,
    s: Sources,
    info: SourceInfoView,
    ids: SourceIds,
) -> Seq<char> {
    let last = match info.last {
        Some(source) => Some(shown_source(source, ids)),
        None => None,
    };
    let head = "Source resolution for '"@ + key + "' (in precedence order):\n"@
        + "================================================\n"@;
    let sources = head + source_lines("CLI FLAGS"@, meta.cli, lookup(s.cli, field), last)
        + source_lines("ENVIRONMENT"@, meta.env, lookup(s.env, field), last) + source_lines(
        "GIT CONFIG"@,
        meta.git,
        lookup(s.git, field),
        last,
    ) + source_lines("PKL CONFIG"@, meta.pkl, lookup(s.pkl, field), last);
    let default = sources + "  DEFAULT:\n"@ + "    Value: "@ + (match meta.default_value {
        Some(d) => d,
        None => "(type default)"@,
    }) + "\n"@;
    let items = match info.list_items {
        Some(items) => if is_list(meta) {
            default + "\n  Items and their sources:\n"@ + item_lines(items, ids)
        } else {
            default
        },
        None => default,
    };
    items + "\nMerge strategy: "@ + (match meta.merge {
        Some(m) => m,
        None => "replace"@,
    }) + "\n"@
}

/// The explanation of a key, or the error that there is no such setting.
pub open spec fn explained(
    key: Seq<char>,
    meta: Seq<(Seq<char>, SettingMetaView)>,
    defaults: SettingsView,
    s: Sources,
    env_set: Seq<Seq<char>>,
    git_set: Seq<Seq<char>>,
) -> Result<Seq<char>, Seq<char>> {
    let field = replaced_char(key, '-', "_"@);
    match lookup(meta, field) {
        None => Err("Unknown configuration key: "@ + key),
        Some(m) => {
            let info = merged_info(meta, defaults_informed(meta, settings_fields(defaults)), s);
            let ids = SourceIds {
                env: first_of_set(m.env, env_set),
                git: first_of_set(m.git, git_set),
                pkl: first_name(s.pkl, field, m.pkl),
                cli: first_name(s.cli, field, m.cli),
            };
            Ok(explanation(key, field, m, s, info_of(info, field), ids))
        },
    }
}

/// What a result with two texts stands for.
pub open spec fn text_result(r: Result<String, String>) -> Result<Seq<char>, Seq<char>> {
    match r {
        Ok(s) => Ok(s@),
        Err(e) => Err(e@),
    }
}

fn show_last(info: Option<&SourceInfo>, ids: &ShownIds) -> (r: Option<String>)
    ensures
        opt_text(r) == (match info {
            Some(i) => match i@.last {
                Some(source) => Some(shown_source(source, ids.ids())),
                None => None,
            },
            None => None,
        }),
{
    match info {
        Some(i) => match i.last {
            Some(source) => Some(ids.show(source)),
            None => None,
        },
        None => None,
    }
}

impl Settings {
    /// Explains where the setting `key` has its value from. `env_set` holds the variables
    /// that are set, and `git_set` the keys that git has an entry for.
    pub fn explain_value(
        key: &str,
        meta: &Table<SettingMeta>,
        defaults: &Settings,
        env: &Table<SettingValue>,
        git: &Table<SettingValue>,
        pkl: &Table<SettingValue>,
        cli: &Table<SettingValue>,
        env_set: &NameSet,
        git_set: &NameSet,
    ) -> (r: Result<String, String>)
        ensures
            text_result(r) == explained(
                key@,
                meta@,
                defaults@,
                (Sources { pkl: pkl@, git: git@, env: env@, cli: cli@ }),
                env_set@,
                git_set@,
            ),
    {
        let field = crate::text::replace_char(key, '-', "_");
        let m = match meta.get(field.as_str()) {
            Some(m) => m,
            None => {
                let mut message = "Unknown configuration key: ".to_owned();
                message.append(key);
                return Err(message);
            },
        };
        let (_, info) = Settings::merge_settings_with_sources_generic(
            meta,
            defaults,
            env,
            git,
            pkl,
            cli,
        );
        let ids = ShownIds {
            env: pick_set(&m.env, env_set),
            git: pick_set(&m.git, git_set),
            pkl: name_where_set(pkl, field.as_str(), &m.pkl),
            cli: name_where_set(cli, field.as_str(), &m.cli),
        };
        let known = info.get(field.as_str());
        let last = show_last(known, &ids);
        let mut out = "Source resolution for '".to_owned();
        out.append(key);
        out.append("' (in precedence order):\n");
        out.append("================================================\n");
        out.append(write_source("CLI FLAGS", &m.cli, cli.get(field.as_str()), &last).as_str());
        out.append(write_source("ENVIRONMENT", &m.env, env.get(field.as_str()), &last).as_str());
        out.append(write_source("GIT CONFIG", &m.git, git.get(field.as_str()), &last).as_str());
        out.append(write_source("PKL CONFIG", &m.pkl, pkl.get(field.as_str()), &last).as_str());
        out.append("  DEFAULT:\n");
        out.append("    Value: ");
        match &m.default_value {
            Some(d) => out.append(d.as_str()),
            None => out.append("(type default)"),
        }
        out.append("\n");
        if let Some(i) = known {
            if let Some(items) = &i.list_items {
                if m.holds_list() {
                    out.append("\n  Items and their sources:\n");
                    out.append(write_items(items, &ids).as_str());
                }
            }
        }
        out.append("\nMerge strategy: ");
        match &m.merge {
            Some(merge) => out.append(merge.as_str()),
            None => out.append("replace"),
        }
        out.append("\n");
        Ok(out)
    }
}

/// The settings of a process: the flags of its command line, what the program
/// itself sets, and the settings once they have been built.
pub struct SettingsStore {
    pub cli: Option<CliSnapshot>,
    pub program: Table<SettingValue>,
    pub built: Option<Settings>,
}

/// What the sources other than the command line say.
pub struct OuterSources {
    pub env: Table<SettingValue>,
    pub git: Table<SettingValue>,
    pub pkl: Table<SettingValue>,
}

/// What the command line of a process says of the settings.
pub open spec fn process_cli_map(store: SettingsStore) -> Seq<(Seq<char>, SettingValueView)> {
    overlaid(
        match store.cli {
            Some(s) => flag_map(s@),
            None => seq![],
        },
        store.program@,
    )
}

/// The settings that the sources of a process give.
pub open spec fn process_settings(
    store: SettingsStore,
    meta: Seq<(Seq<char>, SettingMetaView)>,
    outer: OuterSources,
) -> SettingsView {
    merged_settings(
        meta,
        default_settings(),
        Sources {
            pkl: outer.pkl@,
            git: outer.git@,
            env: outer.env@,
            cli: process_cli_map(store),
        },
    )
}

impl Settings {
    /// Keeps the flags of the command line.
    pub fn set_cli_snapshot(store: &mut SettingsStore, snapshot: CliSnapshot)
        ensures
            final(store).cli == Some(snapshot),
            final(store).program == old(store).program,
            final(store).built == old(store).built,
    {
        store.cli = Some(snapshot);
    }

    /// Whether the command line asks for a trace.
    pub fn cli_trace(store: &SettingsStore) -> (r: bool)
        ensures
            r == (store.cli matches Some(s) && s.trace),
    {
        match &store.cli {
            Some(s) => s.trace,
            None => false,
        }
    }

    /// The form of the results that the command line asks for.
    pub fn cli_output_format(store: &SettingsStore) -> (r: OutputFormat)
        ensures
            r == (match store.cli {
                Some(s) => s.output_format,
                None => OutputFormat::Human,
            }),
    {
        match &store.cli {
            Some(s) => s.output_format,
            None => OutputFormat::Human,
        }
    }

    /// The settings that the sources of a process give.
    pub fn build_from_all_sources(
        store: &SettingsStore,
        meta: &Table<SettingMeta>,
        outer: &OuterSources,
    ) -> (r: Settings)
        ensures
            r@ == process_settings(*store, meta@, *outer),
    {
        let cli = match &store.cli {
            Some(s) => collect_cli_map(Some(s), &store.program),
            None => collect_cli_map(None, &store.program),
        };
        let defaults = Settings::default();
        Settings::merge_settings_generic(meta, &defaults, &outer.env, &outer.git, &outer.pkl, &cli)
    }

    /// The settings of the process: built from the sources on the first call,
    /// the same ever after. `sources` holds an error where one of them could not
    /// be read; then nothing is built.
    pub fn get_snapshot<'a>(
        store: &'a mut SettingsStore,
        meta: &Table<SettingMeta>,
        sources: Result<OuterSources, String>,
    ) -> (r: Result<Settings, String>)
        ensures
            final(store).cli == old(store).cli,
            final(store).program == old(store).program,
            match old(store).built {
                Some(s) => final(store).built == old(store).built && r is Ok && r->Ok_0@ == s@,
                None => match sources {
                    Ok(outer) => {
                        &&& r is Ok
                        &&& r->Ok_0@ == process_settings(*old(store), meta@, outer)
                        &&& final(store).built is Some
                        &&& final(store).built->0@ == r->Ok_0@
                    },
                    Err(e) => r == Err::<Settings, String>(e) && final(store).built is None,
                },
            },
    {
        if let Some(s) = &store.built {
            return Ok(s.dup());
        }
        match sources {
            Ok(outer) => {
                let settings = Settings::build_from_all_sources(store, meta, &outer);
                let copy = settings.dup();
                store.built = Some(settings);
                Ok(copy)
            },
            Err(e) => Err(e),
        }
    }

    /// The settings of the process, or the error that kept them from being built.
    pub fn try_get(
        store: &mut SettingsStore,
        meta: &Table<SettingMeta>,
        sources: Result<OuterSources, String>,
    ) -> (r: Result<Settings, String>)
        ensures
            final(store).cli == old(store).cli,
            final(store).program == old(store).program,
            match old(store).built {
                Some(s) => final(store).built == old(store).built && r is Ok && r->Ok_0@ == s@,
                None => match sources {
                    Ok(outer) => {
                        &&& r is Ok
                        &&& r->Ok_0@ == process_settings(*old(store), meta@, outer)
                        &&& final(store).built is Some
                        &&& final(store).built->0@ == r->Ok_0@
                    },
                    Err(e) => r == Err::<Settings, String>(e) && final(store).built is None,
                },
            },
    {
        Settings::get_snapshot(store, meta, sources)
    }

    /// The settings of the process, where the sources could be read or the
    /// settings were built before.
    pub fn get(
        store: &mut SettingsStore,
        meta: &Table<SettingMeta>,
        sources: Result<OuterSources, String>,
    ) -> (r: Settings)
        requires
            old(store).built is Some || sources is Ok,
        ensures
            match old(store).built {
                Some(s) => final(store).built == old(store).built && r@ == s@,
                None => {
                    &&& r@ == process_settings(*old(store), meta@, sources->Ok_0)
                    &&& final(store).built is Some
                    &&& final(store).built->0@ == r@
                },
            },
    {
        Settings::get_snapshot(store, meta, sources).unwrap()
    }
}

/// The highest source that speaks of a setting.
pub open spec fn highest_source(s: Sources, field: Seq<char>) -> SettingSource {
    if has_key(s.cli, field) {
        SettingSource::Cli
    } else if has_key(s.env, field) {
        SettingSource::Env
    } else if has_key(s.git, field) {
        SettingSource::Git
    } else if has_key(s.pkl, field) {
        SettingSource::Pkl
    } else {
        SettingSource::Defaults
    }
}

proof fn lemma_informed(
    info: Seq<(Seq<char>, SourceInfoView)>,
    field: Seq<char>,
    union: bool,
    source: Seq<(Seq<char>, SettingValueView)>,
    name: SettingSource,
    x: Seq<char>,
)
    ensures
        info_of(informed(info, field, union, source, name), x).last == if x == field && has_key(
            source,
            field,
        ) {
            Some(name)
        } else {
            info_of(info, x).last
        },
{
    if let Some(v) = lookup(source, field) {
        let known = info_of(info, field);
        let items = match v {
            SettingValueView::StringList(l) => if union {
                with_items(known.list_items, l, name)
            } else {
                known.list_items
            },
            _ => known.list_items,
        };
        lemma_lookup_put(info, field, SourceInfoView { last: Some(name), list_items: items }, x);
    }
}

proof fn lemma_merged_info(
    meta: Seq<(Seq<char>, SettingMetaView)>,
    start: Seq<(Seq<char>, SourceInfoView)>,
    s: Sources,
    x: Seq<char>,
)
    ensures
        info_of(merged_info(meta, start, s), x).last == if has_key(meta, x) && highest_source(s, x)
            != SettingSource::Defaults {
            Some(highest_source(s, x))
        } else {
            info_of(start, x).last
        },
    decreases meta.len(),
{
    if meta.len() > 0 {
        let init = meta.drop_last();
        lemma_merged_info(init, start, s, x);
        let (field, union) = (meta.last().0, is_union(meta.last().1));
        let i0 = merged_info(init, start, s);
        let i1 = informed(i0, field, union, s.pkl, SettingSource::Pkl);
        let i2 = informed(i1, field, union, s.git, SettingSource::Git);
        let i3 = informed(i2, field, union, s.env, SettingSource::Env);
        lemma_informed(i0, field, union, s.pkl, SettingSource::Pkl, x);
        lemma_informed(i1, field, union, s.git, SettingSource::Git, x);
        lemma_informed(i2, field, union, s.env, SettingSource::Env, x);
        lemma_informed(i3, field, union, s.cli, SettingSource::Cli, x);
    }
}

proof fn lemma_defaults_informed(
    meta: Seq<(Seq<char>, SettingMetaView)>,
    defaults: Seq<(Seq<char>, FieldValueView)>,
    x: Seq<char>,
)
    requires
        has_key(meta, x),
    ensures
        info_of(defaults_informed(meta, defaults), x).last == Some(SettingSource::Defaults),
    decreases meta.len(),
{
    let init = meta.drop_last();
    lemma_lookup_put(
        defaults_informed(init, defaults),
        meta.last().0,
        default_info(meta.last().1, lookup(defaults, meta.last().0)),
        x,
    );
    if x != meta.last().0 {
        lemma_defaults_informed(init, defaults, x);
    }
}

/// The source that is told of a setting last is the highest that speaks of it: the
/// command line, then the environment, git, the configuration, and the defaults.
pub proof fn law_highest_source_is_told(
    meta: Seq<(Seq<char>, SettingMetaView)>,
    defaults: SettingsView,
    s: Sources,
    field: Seq<char>,
)
    requires
        has_key(meta, field),
    ensures
        info_of(
            merged_info(meta, defaults_informed(meta, settings_fields(defaults)), s),
            field,
        ).last == Some(highest_source(s, field)),
{
    let start = defaults_informed(meta, settings_fields(defaults));
    lemma_merged_info(meta, start, s, field);
    lemma_defaults_informed(meta, settings_fields(defaults), field);
}

/// The sources that are told for an item of a list.
pub open spec fn told_sources(info: SourceInfoView, item: Seq<char>) -> Seq<SettingSource> {
    match info.list_items {
        Some(items) => match lookup(items, item) {
            Some(sources) => sources,
            None => seq![],
        },
        None => seq![],
    }
}

/// The items that a source names for a setting.
pub open spec fn named_items(
    source: Seq<(Seq<char>, SettingValueView)>,
    field: Seq<char>,
) -> Seq<Seq<char>> {
    match lookup(source, field) {
        Some(SettingValueView::StringList(l)) => l,
        _ => seq![],
    }
}

/// `name`, where the source names the item.
pub open spec fn if_named(
    source: Seq<(Seq<char>, SettingValueView)>,
    field: Seq<char>,
    item: Seq<char>,
    name: SettingSource,
) -> Seq<SettingSource> {
    if named_items(source, field).contains(item) {
        seq![name]
    } else {
        seq![]
    }
}

/// The defaults, where they hold the item.
pub open spec fn if_default(
    meta: SettingMetaView,
    value: Option<FieldValueView>,
    item: Seq<char>,
) -> Seq<SettingSource> {
    match value {
        Some(FieldValueView::List(l)) => if is_list(meta) && l.contains(item) {
            seq![SettingSource::Defaults]
        } else {
            seq![]
        },
        _ => seq![],
    }
}

spec fn told_in(
    items: Option<Seq<(Seq<char>, Seq<SettingSource>)>>,
    item: Seq<char>,
) -> Seq<SettingSource> {
    told_sources(SourceInfoView { last: None, list_items: items }, item)
}

proof fn lemma_with_items(
    items: Option<Seq<(Seq<char>, Seq<SettingSource>)>>,
    list: Seq<Seq<char>>,
    source: SettingSource,
    item: Seq<char>,
)
    requires
        list.no_duplicates(),
    ensures
        told_in(with_items(items, list, source), item) == told_in(items, item) + if list.contains(
            item,
        ) {
            seq![source]
        } else {
            seq![]
        },
    decreases list.len(),
{
    if list.len() == 0 {
        assert(told_in(items, item) + seq![] =~= told_in(items, item));
    } else {
        let init = list.drop_last();
        lemma_with_items(items, init, source, item);
        let before = with_items(items, init, source);
        let known = match before {
            Some(m) => m,
            None => seq![],
        };
        let sources = match lookup(known, list.last()) {
            Some(s) => s,
            None => seq![],
        };
        lemma_lookup_put(known, list.last(), sources.push(source), item);
        assert(before is None ==> lookup(known, list.last()) is None);
        assert(list[list.len() - 1] == list.last());
        if item == list.last() {
            assert(!init.contains(item)) by {
                if init.contains(item) {
                    let i = choose|i: int| 0 <= i < init.len() && init[i] == item;
                    assert(list[i] == list[list.len() - 1]);
                }
            }
            assert(told_in(items, item) + seq![] =~= told_in(items, item));
            assert(told_in(before, item).push(source) =~= told_in(items, item) + seq![source]);
        } else {
            assert(init.contains(item) == list.contains(item)) by {
                if list.contains(item) {
                    let i = choose|i: int| 0 <= i < list.len() && list[i] == item;
                    assert(init[i] == item);
                }
                if init.contains(item) {
                    let i = choose|i: int| 0 <= i < init.len() && init[i] == item;
                    assert(list[i] == item);
                }
            }
        }
    }
}

proof fn lemma_informed_items(
    info: Seq<(Seq<char>, SourceInfoView)>,
    field: Seq<char>,
    union: bool,
    source: Seq<(Seq<char>, SettingValueView)>,
    name: SettingSource,
    x: Seq<char>,
    item: Seq<char>,
)
    requires
        named_items(source, field).no_duplicates(),
    ensures
        told_sources(info_of(informed(info, field, union, source, name), x), item) == told_sources(
            info_of(info, x),
            item,
        ) + if x == field && union {
            if_named(source, field, item, name)
        } else {
            seq![]
        },
{
    let told = told_sources(info_of(info, x), item);
    assert(told + seq![] =~= told);
    if let Some(v) = lookup(source, field) {
        let known = info_of(info, field);
        let items = match v {
            SettingValueView::StringList(l) => if union {
                with_items(known.list_items, l, name)
            } else {
                known.list_items
            },
            _ => known.list_items,
        };
        let now = SourceInfoView { last: Some(name), list_items: items };
        lemma_lookup_put(info, field, now, x);
        if x == field {
            assert(told_sources(now, item) == told_in(items, item));
            assert(told_sources(known, item) == told_in(known.list_items, item));
            if let SettingValueView::StringList(l) = v {
                if union {
                    lemma_with_items(known.list_items, l, name, item);
                }
            }
        }
    }
}

/// The sources that name an item of a setting, from the lowest to the highest.
pub open spec fn naming_sources(s: Sources, field: Seq<char>, item: Seq<char>) -> Seq<SettingSource> {
    if_named(s.pkl, field, item, SettingSource::Pkl) + if_named(
        s.git,
        field,
        item,
        SettingSource::Git,
    ) + if_named(s.env, field, item, SettingSource::Env) + if_named(
        s.cli,
        field,
        item,
        SettingSource::Cli,
    )
}

proof fn lemma_merged_items(
    meta: Seq<(Seq<char>, SettingMetaView)>,
    start: Seq<(Seq<char>, SourceInfoView)>,
    s: Sources,
    x: Seq<char>,
    item: Seq<char>,
)
    requires
        distinct(meta),
        all_lists_distinct(s),
    ensures
        told_sources(info_of(merged_info(meta, start, s), x), item) == told_sources(
            info_of(start, x),
            item,
        ) + if has_key(meta, x) && is_union(lookup(meta, x)->0) {
            naming_sources(s, x, item)
        } else {
            seq![]
        },
    decreases meta.len(),
{
    let told = told_sources(info_of(start, x), item);
    assert(told + seq![] =~= told);
    if meta.len() > 0 {
        let init = meta.drop_last();
        assert(distinct(init)) by {
            assert forall|i: int, j: int| 0 <= i < j < init.len() implies init[i].0 != init[j].0 by {
                assert(meta[i].0 != meta[j].0);
            }
        }
        lemma_merged_items(init, start, s, x, item);
        let (field, union) = (meta.last().0, is_union(meta.last().1));
        let i0 = merged_info(init, start, s);
        let i1 = informed(i0, field, union, s.pkl, SettingSource::Pkl);
        let i2 = informed(i1, field, union, s.git, SettingSource::Git);
        let i3 = informed(i2, field, union, s.env, SettingSource::Env);
        let i4 = informed(i3, field, union, s.cli, SettingSource::Cli);
        assert(named_items(s.pkl, field).no_duplicates());
        lemma_informed_items(i0, field, union, s.pkl, SettingSource::Pkl, x, item);
        lemma_informed_items(i1, field, union, s.git, SettingSource::Git, x, item);
        lemma_informed_items(i2, field, union, s.env, SettingSource::Env, x, item);
        lemma_informed_items(i3, field, union, s.cli, SettingSource::Cli, x, item);
        let t0 = told_sources(info_of(i0, x), item);
        let t4 = told_sources(info_of(i4, x), item);
        if x == field {
            lemma_position(init, x);
            assert(!has_key(init, x)) by {
                if has_key(init, x) {
                    assert(meta[position(init, x)].0 == meta[meta.len() - 1].0);
                }
            }
            assert(lookup(meta, x) == Some(meta.last().1));
            if union {
                assert(t4 =~= t0 + naming_sources(s, x, item));
            } else {
                assert(t4 =~= t0);
            }
        } else {
            lemma_position(init, x);
            assert(t4 =~= t0);
            assert(has_key(init, x) ==> lookup(meta, x) == lookup(init, x));
        }
    }
}

proof fn lemma_default_items(list: Seq<Seq<char>>, item: Seq<char>)
    ensures
        lookup(default_items(list), item) == if list.contains(item) {
            Some(seq![SettingSource::Defaults])
        } else {
            None
        },
    decreases list.len(),
{
    if list.len() > 0 {
        let init = list.drop_last();
        lemma_default_items(init, item);
        lemma_lookup_put(default_items(init), list.last(), seq![SettingSource::Defaults], item);
        assert(list[list.len() - 1] == list.last());
        if init.contains(item) {
            let i = choose|i: int| 0 <= i < init.len() && init[i] == item;
            assert(list[i] == item);
        }
        if list.contains(item) && item != list.last() {
            let i = choose|i: int| 0 <= i < list.len() && list[i] == item;
            assert(init[i] == item);
        }
    }
}

proof fn lemma_default_told(
    meta: Seq<(Seq<char>, SettingMetaView)>,
    defaults: Seq<(Seq<char>, FieldValueView)>,
    x: Seq<char>,
    item: Seq<char>,
)
    requires
        has_key(meta, x),
    ensures
        told_sources(info_of(defaults_informed(meta, defaults), x), item) == if_default(
            lookup(meta, x)->0,
            lookup(defaults, x),
            item,
        ),
    decreases meta.len(),
{
    let init = meta.drop_last();
    lemma_lookup_put(
        defaults_informed(init, defaults),
        meta.last().0,
        default_info(meta.last().1, lookup(defaults, meta.last().0)),
        x,
    );
    if x != meta.last().0 {
        lemma_default_told(meta.drop_last(), defaults, x, item);
        lemma_position(init, x);
        assert(lookup(meta, x) == lookup(init, x));
    } else {
        if let Some(FieldValueView::List(l)) = lookup(defaults, x) {
            lemma_default_items(l, item);
        }
    }
}

/// No source names an item of a list twice.
pub open spec fn all_lists_distinct(s: Sources) -> bool {
    forall|field: Seq<char>|
        (#[trigger] named_items(s.pkl, field)).no_duplicates() && named_items(
            s.git,
            field,
        ).no_duplicates() && named_items(s.env, field).no_duplicates() && named_items(
            s.cli,
            field,
        ).no_duplicates()
}

/// An item of a list that sources add to has all the sources among its own that name it:
/// the defaults where they hold it, and each source that names it, from the lowest to
/// the highest.
pub proof fn law_items_have_all_their_sources(
    meta: Seq<(Seq<char>, SettingMetaView)>,
    defaults: SettingsView,
    s: Sources,
    field: Seq<char>,
    item: Seq<char>,
)
    requires
        distinct(meta),
        all_lists_distinct(s),
        has_key(meta, field),
        is_union(lookup(meta, field)->0),
    ensures
        told_sources(
            info_of(
                merged_info(meta, defaults_informed(meta, settings_fields(defaults)), s),
                field,
            ),
            item,
        ) == if_default(lookup(meta, field)->0, lookup(settings_fields(defaults), field), item)
            + naming_sources(s, field, item),
{
    let start = defaults_informed(meta, settings_fields(defaults));
    lemma_merged_items(meta, start, s, field, item);
    lemma_default_told(meta, settings_fields(defaults), field, item);
}

/// A setting that sources replace has the value that the command line gives, else the
/// environment, else git, else the configuration of the project, else the default.
pub proof fn law_command_line_then_environment_then_git(
    meta: Seq<(Seq<char>, SettingMetaView)>,
    defaults: Seq<(Seq<char>, FieldValueView)>,
    s: Sources,
    field: Seq<char>,
)
    requires
        distinct(meta),
        has_key(meta, field),
        !is_union(lookup(meta, field)->0),
    ensures
        ({
            let value = lookup(merged_fields(meta, defaults, s), field);
            &&& lookup(s.cli, field) matches Some(v) ==> value == Some(field_of(v))
            &&& lookup(s.cli, field) is None ==> (lookup(s.env, field) matches Some(v) ==> value
                == Some(field_of(v)))
            &&& lookup(s.cli, field) is None && lookup(s.env, field) is None ==> (lookup(
                s.git,
                field,
            ) matches Some(v) ==> value == Some(field_of(v)))
            &&& lookup(s.cli, field) is None && lookup(s.env, field) is None && lookup(s.git, field)
                is None ==> (lookup(s.pkl, field) matches Some(v) ==> value == Some(field_of(v)))
            &&& lookup(s.cli, field) is None && lookup(s.env, field) is None && lookup(s.git, field)
                is None && lookup(s.pkl, field) is None ==> value == lookup(defaults, field)
        }),
{
    law_highest_source_wins(meta, defaults, s, field);
}

/// A value of a source is the field that it says: numbers stay numbers, texts texts.
pub proof fn law_values_keep_their_meaning(b: bool, n: usize, small: u8, text: Seq<char>, list: Seq<Seq<char>>)
    ensures
        field_of(SettingValueView::Bool(b)) == FieldValueView::Bool(b),
        field_of(SettingValueView::Usize(n)) == FieldValueView::Number(n),
        field_of(SettingValueView::U8(small)) == FieldValueView::Number(small as usize),
        field_of(SettingValueView::String(text)) == FieldValueView::Text(text),
        field_of(SettingValueView::Path(text)) == FieldValueView::Text(text),
        field_of(SettingValueView::StringList(list)) == FieldValueView::List(list),
{
}

/// Of the variables of a setting the first that is set counts.
pub proof fn law_the_first_variable_counts(
    meta: SettingMetaView,
    vars: Seq<(Seq<char>, Seq<char>)>,
    i: int,
)
    ensures
        0 <= i < meta.env.len() && has_key(vars, meta.env[i]) && (forall|k: int|
            0 <= k < i ==> !has_key(vars, #[trigger] meta.env[k])) ==> env_setting(meta, vars)
            == env_value(
            meta.typ,
            meta.env[i],
            lookup(vars, meta.env[i])->0,
            lower_case(lookup(vars, meta.env[i])->0),
        ),
        (forall|k: int| 0 <= k < meta.env.len() ==> !has_key(vars, #[trigger] meta.env[k]))
            ==> env_setting(meta, vars) == Ok::<Option<SettingValueView>, Seq<char>>(None),
{
    lemma_first_set(meta.env, vars);
    if 0 <= i < meta.env.len() && has_key(vars, meta.env[i]) && (forall|k: int|
        0 <= k < i ==> !has_key(vars, #[trigger] meta.env[k])) {
        let j = first_set(meta.env, vars)->0;
        if j < i {
            assert(!has_key(vars, meta.env[j]));
        } else if i < j {
            assert(!has_key(vars, meta.env[i]));
        }
    }
}

proof fn lemma_first_set(names: Seq<Seq<char>>, vars: Seq<(Seq<char>, Seq<char>)>)
    ensures
        match first_set(names, vars) {
            Some(i) => 0 <= i < names.len() && has_key(vars, names[i]) && forall|k: int|
                0 <= k < i ==> !has_key(vars, #[trigger] names[k]),
            None => forall|k: int| 0 <= k < names.len() ==> !has_key(vars, #[trigger] names[k]),
        },
    decreases names.len(),
{
    if names.len() > 0 {
        let init = names.drop_last();
        lemma_first_set(init, vars);
        match first_set(init, vars) {
            Some(i) => {
                assert forall|k: int| 0 <= k < i implies !has_key(vars, #[trigger] names[k]) by {
                    assert(!has_key(vars, init[k]));
                }
            },
            None => {
                assert forall|k: int| 0 <= k < init.len() implies !has_key(
                    vars,
                    #[trigger] names[k],
                ) by {
                    assert(!has_key(vars, init[k]));
                }
            },
        }
    }
}

/// A variable says what the type of its setting makes of it: a flag is on for a word that
/// says yes and off for any other, a number has to be one and to fit, and a list holds the
/// items between its commas.
pub proof fn law_variables_are_read_as_their_type(
    var: Seq<char>,
    value: Seq<char>,
    lower: Seq<char>,
    n: nat,
    item: Seq<char>,
)
    ensures
        env_value("bool"@, var, value, lower) == Ok::<Option<SettingValueView>, Seq<char>>(
            Some(
                SettingValueView::Bool(
                    lower == "1"@ || lower == "true"@ || lower == "yes"@ || lower == "on"@,
                ),
            ),
        ),
        unsigned_value(value) == Some(n) && n <= usize::MAX ==> env_value("usize"@, var, value, lower)
            == Ok::<Option<SettingValueView>, Seq<char>>(Some(SettingValueView::Usize(n as usize))),
        unsigned_value(value) is None ==> env_value("usize"@, var, value, lower) is Err && env_value(
            "u8"@,
            var,
            value,
            lower,
        ) is Err,
        unsigned_value(value) == Some(n) && n <= 255 ==> env_value("u8"@, var, value, lower)
            == Ok::<Option<SettingValueView>, Seq<char>>(Some(SettingValueView::U8(n as u8))),
        unsigned_value(value) == Some(n) && n > 255 ==> env_value("u8"@, var, value, lower) is Err,
        env_value("path"@, var, value, lower) == Ok::<Option<SettingValueView>, Seq<char>>(
            Some(SettingValueView::Path(value)),
        ),
        env_value("string"@, var, value, lower) == Ok::<Option<SettingValueView>, Seq<char>>(
            Some(SettingValueView::String(value)),
        ),
        env_value("list<string>"@, var, value, lower) matches Ok(Some(SettingValueView::StringList(
            list,
        ))) && (list.contains(item) <==> comma_items(value).contains(item)),
{
    lemma_type_names();
    lemma_push_all_new(seq![], comma_items(value));
}

proof fn lemma_type_names()
    ensures
        "usize"@ != "bool"@,
        "u8"@ != "bool"@,
        "u8"@ != "usize"@,
        "path"@ != "bool"@,
        "path"@ != "usize"@,
        "path"@ != "u8"@,
        "path"@ != "enum"@,
        !starts("path"@, "list<string>"@),
        "string"@ != "bool"@,
        "string"@ != "usize"@,
        "string"@ != "u8"@,
        "string"@ != "path"@,
        !starts("string"@, "list<string>"@),
        "list<string>"@ != "bool"@,
        "list<string>"@ != "usize"@,
        "list<string>"@ != "u8"@,
        starts("list<string>"@, "list<string>"@),
{
    reveal_strlit("bool");
    reveal_strlit("usize");
    reveal_strlit("u8");
    reveal_strlit("path");
    reveal_strlit("string");
    reveal_strlit("list<string>");
    reveal_strlit("enum");
    assert("enum"@.len() == 4 && "path"@[0] != "enum"@[0]);
    assert("bool"@.len() == 4 && "usize"@.len() == 5 && "u8"@.len() == 2 && "path"@.len() == 4
        && "string"@.len() == 6 && "list<string>"@.len() == 12);
    assert("path"@[0] != "bool"@[0]);
    assert("list<string>"@.subrange(0, 12) =~= "list<string>"@);
}

/// What the environment says of each setting is what its variables say; one that they say
/// nothing of is not there.
pub proof fn law_the_environment_speaks_of_every_setting(
    meta: Seq<(Seq<char>, SettingMetaView)>,
    vars: Seq<(Seq<char>, Seq<char>)>,
    i: int,
)
    requires
        distinct(meta),
        0 <= i < meta.len(),
    ensures
        env_map(meta, vars) matches Ok(map) ==> env_setting(meta[i].1, vars) == Ok::<
            Option<SettingValueView>,
            Seq<char>,
        >(lookup(map, meta[i].0)),
        env_setting(meta[i].1, vars) is Err ==> env_map(meta, vars) is Err,
    decreases meta.len(),
{
    let init = meta.drop_last();
    let (name, m) = meta.last();
    if i < init.len() {
        lemma_distinct_init(meta);
        law_the_environment_speaks_of_every_setting(init, vars, i);
        assert(init[i] == meta[i]);
        assert(meta[i].0 != meta[meta.len() - 1].0);
        if let Ok(map) = env_map(init, vars) {
            if let Ok(Some(v)) = env_setting(m, vars) {
                lemma_lookup_put(map, name, v, meta[i].0);
            }
        }
    } else {
        if let Ok(map) = env_map(init, vars) {
            lemma_env_map_absent(init, vars, name);
            if let Ok(Some(v)) = env_setting(m, vars) {
                lemma_lookup_put(map, name, v, name);
            }
        }
    }
}

proof fn lemma_distinct_init<V>(e: Seq<(Seq<char>, V)>)
    requires
        distinct(e),
        e.len() > 0,
    ensures
        distinct(e.drop_last()),
        forall|i: int| 0 <= i < e.len() - 1 ==> (#[trigger] e.drop_last()[i]).0 != e.last().0,
{
    let init = e.drop_last();
    assert forall|i: int, j: int| 0 <= i < j < init.len() implies init[i].0 != init[j].0 by {
        assert(e[i].0 != e[j].0);
    }
    assert forall|i: int| 0 <= i < e.len() - 1 implies (#[trigger] init[i]).0 != e.last().0 by {
        assert(e[i].0 != e[e.len() - 1].0);
    }
}

proof fn lemma_env_map_absent(
    meta: Seq<(Seq<char>, SettingMetaView)>,
    vars: Seq<(Seq<char>, Seq<char>)>,
    name: Seq<char>,
)
    requires
        forall|i: int| 0 <= i < meta.len() ==> (#[trigger] meta[i]).0 != name,
    ensures
        env_map(meta, vars) matches Ok(map) ==> lookup(map, name) is None,
    decreases meta.len(),
{
    if meta.len() > 0 {
        let init = meta.drop_last();
        assert forall|i: int| 0 <= i < init.len() implies (#[trigger] init[i]).0 != name by {
            assert(meta[i].0 != name);
        }
        lemma_env_map_absent(init, vars, name);
        assert(meta[meta.len() - 1].0 != name);
        if let Ok(map) = env_map(init, vars) {
            if let Ok(Some(v)) = env_setting(meta.last().1, vars) {
                lemma_lookup_put(map, meta.last().0, v, name);
            }
        }
    }
}

/// What git says of each setting is what is under its keys.
pub proof fn law_git_speaks_of_every_setting(
    meta: Seq<(Seq<char>, SettingMetaView)>,
    reads: Seq<Seq<GitReadView>>,
    i: int,
)
    requires
        distinct(meta),
        0 <= i < meta.len(),
    ensures
        lookup(git_map(meta, reads), meta[i].0) == git_value(meta[i].1.typ, reads[i]),
    decreases meta.len(),
{
    let init = meta.drop_last();
    let (name, m) = meta.last();
    let before = git_map(init, reads);
    lemma_distinct_init(meta);
    let v = git_value(m.typ, reads[meta.len() - 1]);
    if i < init.len() {
        law_git_speaks_of_every_setting(init, reads, i);
        assert(init[i] == meta[i]);
        if v is Some {
            lemma_lookup_put(before, name, v->0, meta[i].0);
        }
    } else {
        lemma_git_map_absent(init, reads, name);
        if v is Some {
            lemma_lookup_put(before, name, v->0, name);
        }
    }
}

proof fn lemma_git_map_absent(
    meta: Seq<(Seq<char>, SettingMetaView)>,
    reads: Seq<Seq<GitReadView>>,
    name: Seq<char>,
)
    requires
        forall|i: int| 0 <= i < meta.len() ==> (#[trigger] meta[i]).0 != name,
    ensures
        lookup(git_map(meta, reads), name) is None,
    decreases meta.len(),
{
    if meta.len() > 0 {
        let init = meta.drop_last();
        assert forall|i: int| 0 <= i < init.len() implies (#[trigger] init[i]).0 != name by {
            assert(meta[i].0 != name);
        }
        lemma_git_map_absent(init, reads, name);
        assert(meta[meta.len() - 1].0 != name);
        let v = git_value(meta.last().1.typ, reads[meta.len() - 1]);
        if v is Some {
            lemma_lookup_put(git_map(init, reads), meta.last().0, v->0, name);
        }
    }
}

/// Of the keys of a setting the first that holds a fitting value counts; a list holds the
/// items of all keys.
pub proof fn law_the_first_key_of_git_counts(reads: Seq<GitReadView>, i: int, item: Seq<char>)
    ensures
        0 <= i < reads.len() && reads[i].flag is Some && (forall|k: int|
            0 <= k < i ==> (#[trigger] reads[k]).flag is None) ==> git_value("bool"@, reads) == Some(
            SettingValueView::Bool(reads[i].flag->0),
        ),
        0 <= i < reads.len() && reads[i].text is Some && (forall|k: int|
            0 <= k < i ==> (#[trigger] reads[k]).text is None) ==> git_value("string"@, reads)
            == Some(SettingValueView::String(reads[i].text->0)) && git_value("path"@, reads) == Some(
            SettingValueView::Path(reads[i].text->0),
        ),
        0 <= i < reads.len() && fits(reads[i], 1, i32::MAX as int) && (forall|k: int|
            0 <= k < i ==> !#[trigger] fits(reads[k], 1, i32::MAX as int)) ==> git_value("usize"@, reads) == Some(
            SettingValueView::Usize(reads[i].number->0 as usize),
        ),
        0 <= i < reads.len() && fits(reads[i], 0, 255) && (forall|k: int|
            0 <= k < i ==> !#[trigger] fits(reads[k], 0, 255)) ==> git_value("u8"@, reads) == Some(
            SettingValueView::U8(reads[i].number->0 as u8),
        ),
        (exists|k: int, j: int|
            0 <= k < reads.len() && 0 <= j < reads[k].list.len() && comma_items(
                #[trigger] reads[k].list[j],
            ).contains(item)) <==> all_items(reads).contains(item),
        git_value("list<string>"@, reads) == if all_items(reads).len() > 0 {
            Some(SettingValueView::StringList(all_items(reads)))
        } else {
            None
        },
    decreases reads.len(),
{
    lemma_type_names();
    if 0 <= i < reads.len() && reads[i].flag is Some && (forall|k: int|
        0 <= k < i ==> (#[trigger] reads[k]).flag is None) {
        lemma_first_flag(reads, i);
    }
    if 0 <= i < reads.len() && reads[i].text is Some && (forall|k: int|
        0 <= k < i ==> (#[trigger] reads[k]).text is None) {
        lemma_first_text(reads, i);
    }
    if 0 <= i < reads.len() && fits(reads[i], 1, i32::MAX as int) && (forall|k: int|
        0 <= k < i ==> !#[trigger] fits(reads[k], 1, i32::MAX as int)) {
        lemma_first_number(reads, 1, i32::MAX as int, i);
    }
    if 0 <= i < reads.len() && fits(reads[i], 0, 255) && (forall|k: int|
        0 <= k < i ==> !#[trigger] fits(reads[k], 0, 255)) {
        lemma_first_number(reads, 0, 255, i);
    }
    lemma_all_items(reads, item);
}

proof fn lemma_first_flag(reads: Seq<GitReadView>, i: int)
    requires
        0 <= i < reads.len(),
        reads[i].flag is Some,
        forall|k: int| 0 <= k < i ==> (#[trigger] reads[k]).flag is None,
    ensures
        first_flag(reads) == reads[i].flag,
    decreases reads.len(),
{
    let init = reads.drop_last();
    if i < init.len() {
        assert(init[i] == reads[i]);
        lemma_first_flag(init, i);
    } else {
        lemma_no_flag(init);
    }
}

proof fn lemma_no_flag(reads: Seq<GitReadView>)
    requires
        forall|k: int| 0 <= k < reads.len() ==> (#[trigger] reads[k]).flag is None,
    ensures
        first_flag(reads) is None,
    decreases reads.len(),
{
    if reads.len() > 0 {
        lemma_no_flag(reads.drop_last());
        assert(reads[reads.len() - 1].flag is None);
    }
}

proof fn lemma_first_text(reads: Seq<GitReadView>, i: int)
    requires
        0 <= i < reads.len(),
        reads[i].text is Some,
        forall|k: int| 0 <= k < i ==> (#[trigger] reads[k]).text is None,
    ensures
        first_text(reads) == reads[i].text,
    decreases reads.len(),
{
    let init = reads.drop_last();
    if i < init.len() {
        assert(init[i] == reads[i]);
        lemma_first_text(init, i);
    } else {
        lemma_no_text(init);
    }
}

proof fn lemma_no_text(reads: Seq<GitReadView>)
    requires
        forall|k: int| 0 <= k < reads.len() ==> (#[trigger] reads[k]).text is None,
    ensures
        first_text(reads) is None,
    decreases reads.len(),
{
    if reads.len() > 0 {
        lemma_no_text(reads.drop_last());
        assert(reads[reads.len() - 1].text is None);
    }
}

/// There is a number, and it lies between the two bounds.
pub open spec fn fits(read: GitReadView, low: int, high: int) -> bool {
    read.number is Some && low <= read.number->0 <= high
}

proof fn lemma_first_number(reads: Seq<GitReadView>, low: int, high: int, i: int)
    requires
        0 <= i < reads.len(),
        fits(reads[i], low, high),
        forall|k: int| 0 <= k < i ==> !#[trigger] fits(reads[k], low, high),
    ensures
        first_number(reads, low, high) == reads[i].number,
    decreases reads.len(),
{
    let init = reads.drop_last();
    if i < init.len() {
        assert(init[i] == reads[i]);
        assert forall|k: int| 0 <= k < i implies !#[trigger] fits(init[k], low, high) by {
            assert(!fits(reads[k], low, high));
        }
        lemma_first_number(init, low, high, i);
    } else {
        assert forall|k: int| 0 <= k < init.len() implies !#[trigger] fits(init[k], low, high) by {
            assert(!fits(reads[k], low, high));
        }
        lemma_no_number(init, low, high);
    }
}

proof fn lemma_no_number(reads: Seq<GitReadView>, low: int, high: int)
    requires
        forall|k: int| 0 <= k < reads.len() ==> !#[trigger] fits(reads[k], low, high),
    ensures
        first_number(reads, low, high) is None,
    decreases reads.len(),
{
    if reads.len() > 0 {
        let init = reads.drop_last();
        assert forall|k: int| 0 <= k < init.len() implies !#[trigger] fits(init[k], low, high) by {
            assert(!fits(reads[k], low, high));
        }
        lemma_no_number(init, low, high);
        assert(!fits(reads[reads.len() - 1], low, high));
    }
}

proof fn lemma_value_items(values: Seq<Seq<char>>, item: Seq<char>)
    ensures
        value_items(values).contains(item) <==> exists|j: int|
            0 <= j < values.len() && comma_items(#[trigger] values[j]).contains(item),
    decreases values.len(),
{
    if values.len() > 0 {
        let init = values.drop_last();
        lemma_value_items(init, item);
        lemma_push_all_new(value_items(init), comma_items(values.last()));
        assert(values[values.len() - 1] == values.last());
        if exists|j: int| 0 <= j < init.len() && comma_items(#[trigger] init[j]).contains(item) {
            let j = choose|j: int|
                0 <= j < init.len() && comma_items(#[trigger] init[j]).contains(item);
            assert(comma_items(values[j]).contains(item));
        }
        if exists|j: int| 0 <= j < values.len() && comma_items(#[trigger] values[j]).contains(item) {
            let j = choose|j: int|
                0 <= j < values.len() && comma_items(#[trigger] values[j]).contains(item);
            if j < init.len() {
                assert(comma_items(init[j]).contains(item));
            }
        }
    }
}

proof fn lemma_all_items(reads: Seq<GitReadView>, item: Seq<char>)
    ensures
        (exists|k: int, j: int|
            0 <= k < reads.len() && 0 <= j < reads[k].list.len() && comma_items(
                #[trigger] reads[k].list[j],
            ).contains(item)) <==> all_items(reads).contains(item),
    decreases reads.len(),
{
    if reads.len() > 0 {
        let init = reads.drop_last();
        let n = reads.len() - 1;
        lemma_all_items(init, item);
        lemma_value_items(reads.last().list, item);
        lemma_push_all_new(all_items(init), value_items(reads.last().list));
        if all_items(init).contains(item) {
            let (k, j) = choose|k: int, j: int|
                0 <= k < init.len() && 0 <= j < init[k].list.len() && comma_items(
                    #[trigger] init[k].list[j],
                ).contains(item);
            assert(comma_items(reads[k].list[j]).contains(item));
        }
        if value_items(reads.last().list).contains(item) {
            let j = choose|j: int|
                0 <= j < reads[n].list.len() && comma_items(#[trigger] reads[n].list[j]).contains(
                    item,
                );
            assert(comma_items(reads[n].list[j]).contains(item));
        }
        if exists|k: int, j: int|
            0 <= k < reads.len() && 0 <= j < reads[k].list.len() && comma_items(
                #[trigger] reads[k].list[j],
            ).contains(item) {
            let (k, j) = choose|k: int, j: int|
                0 <= k < reads.len() && 0 <= j < reads[k].list.len() && comma_items(
                    #[trigger] reads[k].list[j],
                ).contains(item);
            if k < n {
                assert(comma_items(init[k].list[j]).contains(item));
            }
        }
    }
}

/// What the configuration of the project says of a setting counts where it has the type of
/// the setting and the setting can be set there.
pub proof fn law_the_project_speaks_of_every_setting(
    meta: Seq<(Seq<char>, SettingMetaView)>,
    config: JsonView,
    i: int,
)
    requires
        distinct(meta),
        0 <= i < meta.len(),
    ensures
        lookup(pkl_map(meta, config), meta[i].0) == (match config.field(
            replaced_char(meta[i].0, '-', "_"@),
        ) {
            Some(value) => if meta[i].1.pkl.len() > 0 {
                pkl_value(meta[i].1.typ, value)
            } else {
                None
            },
            None => None,
        }),
    decreases meta.len(),
{
    let init = meta.drop_last();
    let (name, m) = meta.last();
    let before = pkl_map(init, config);
    lemma_distinct_init(meta);
    let value = config.field(replaced_char(name, '-', "_"@));
    if i < init.len() {
        law_the_project_speaks_of_every_setting(init, config, i);
        assert(init[i] == meta[i]);
    } else {
        lemma_pkl_map_absent(init, config, name);
    }
    if value is Some {
        if let Some(v) = pkl_value(m.typ, value->0) {
            lemma_lookup_put(before, name, v, meta[i].0);
        }
    }
}

proof fn lemma_pkl_map_absent(
    meta: Seq<(Seq<char>, SettingMetaView)>,
    config: JsonView,
    name: Seq<char>,
)
    requires
        forall|i: int| 0 <= i < meta.len() ==> (#[trigger] meta[i]).0 != name,
    ensures
        lookup(pkl_map(meta, config), name) is None,
    decreases meta.len(),
{
    if meta.len() > 0 {
        let init = meta.drop_last();
        assert forall|i: int| 0 <= i < init.len() implies (#[trigger] init[i]).0 != name by {
            assert(meta[i].0 != name);
        }
        lemma_pkl_map_absent(init, config, name);
        assert(meta[meta.len() - 1].0 != name);
        let value = config.field(replaced_char(meta.last().0, '-', "_"@));
        if value is Some {
            if let Some(v) = pkl_value(meta.last().1.typ, value->0) {
                lemma_lookup_put(pkl_map(init, config), meta.last().0, v, name);
            }
        }
    }
}

/// A value of the configuration of the project sets a setting of its own type and no other;
/// a list may be a single text.
pub proof fn law_project_values_have_their_type(b: bool, n: u64, digits: Seq<char>, text: Seq<char>)
    ensures
        pkl_value("bool"@, JsonView::Bool(b)) == Some(SettingValueView::Bool(b)),
        n <= usize::MAX ==> pkl_value("usize"@, JsonView::Number(digits, Some(n))) == Some(
            SettingValueView::Usize(n as usize),
        ),
        pkl_value("string"@, JsonView::String(text)) == Some(SettingValueView::String(text)),
        pkl_value("path"@, JsonView::String(text)) == Some(SettingValueView::Path(text)),
        pkl_value("list<string>"@, JsonView::String(text)) == Some(
            SettingValueView::StringList(seq![text]),
        ),
        pkl_value("bool"@, JsonView::String(text)) is None,
        pkl_value("usize"@, JsonView::Bool(b)) is None,
        pkl_value("string"@, JsonView::Bool(b)) is None,
{
    lemma_type_names();
    reveal_strlit("bool");
    reveal_strlit("enum");
    reveal_strlit("path");
    reveal_strlit("string");
    reveal_strlit("list<string>");
    assert("bool"@.len() == 4 && "enum"@.len() == 4 && "path"@.len() == 4 && "string"@.len() == 6
        && "list<string>"@.len() == 12);
    assert("bool"@[0] != "enum"@[0] && "path"@[0] != "enum"@[0]);
}

/// The flags of a command line set what they are named after, and nothing else.
pub proof fn law_flags_set_their_settings(snapshot: CliSnapshotView, other: Seq<char>, profile: Seq<char>)
    requires
        other != "jobs"@ && other != "profiles"@ && other != "quiet"@ && other != "silent"@,
    ensures
        ({
            let map = flag_map(snapshot);
            &&& lookup(map, "jobs"@) == match snapshot.jobs {
                Some(n) => Some(SettingValueView::Usize(n)),
                None => None,
            }
            &&& lookup(map, "quiet"@) == if snapshot.quiet {
                Some(SettingValueView::Bool(true))
            } else {
                None
            }
            &&& lookup(map, "silent"@) == if snapshot.silent {
                Some(SettingValueView::Bool(true))
            } else {
                None
            }
            &&& cli_profiles(snapshot).contains(profile) <==> snapshot.profiles.contains(profile) || (
            snapshot.slow && profile == "slow"@)
            &&& lookup(map, "profiles"@) == if cli_profiles(snapshot).len() > 0 {
                Some(SettingValueView::StringList(cli_profiles(snapshot)))
            } else {
                None
            }
            &&& lookup(map, other) is None
        }),
{
    reveal_strlit("jobs");
    reveal_strlit("profiles");
    reveal_strlit("quiet");
    reveal_strlit("silent");
    assert("jobs"@.len() == 4 && "profiles"@.len() == 8 && "quiet"@.len() == 5 && "silent"@.len()
        == 6);
    lemma_push_all_new(seq![], snapshot.profiles);
    crate::seqs::lemma_pushed(push_all_new(seq![], snapshot.profiles), "slow"@, profile);
    lemma_flag_map(snapshot, "jobs"@);
    lemma_flag_map(snapshot, "profiles"@);
    lemma_flag_map(snapshot, "quiet"@);
    lemma_flag_map(snapshot, "silent"@);
    lemma_flag_map(snapshot, other);
}

proof fn lemma_flag_map(snapshot: CliSnapshotView, x: Seq<char>)
    ensures
        lookup(flag_map(snapshot), x) == if x == "silent"@ && snapshot.silent {
            Some(SettingValueView::Bool(true))
        } else if x == "quiet"@ && snapshot.quiet {
            Some(SettingValueView::Bool(true))
        } else if x == "profiles"@ && cli_profiles(snapshot).len() > 0 {
            Some(SettingValueView::StringList(cli_profiles(snapshot)))
        } else if x == "jobs"@ && snapshot.jobs is Some {
            Some(SettingValueView::Usize(snapshot.jobs->0))
        } else {
            None
        },
{
    let m0 = Seq::<(Seq<char>, SettingValueView)>::empty();
    let m1 = match snapshot.jobs {
        Some(j) => put(m0, "jobs"@, SettingValueView::Usize(j)),
        None => m0,
    };
    let profiles = cli_profiles(snapshot);
    let m2 = if profiles.len() > 0 {
        put(m1, "profiles"@, SettingValueView::StringList(profiles))
    } else {
        m1
    };
    let m3 = if snapshot.quiet {
        put(m2, "quiet"@, SettingValueView::Bool(true))
    } else {
        m2
    };
    if snapshot.jobs is Some {
        lemma_lookup_put(m0, "jobs"@, SettingValueView::Usize(snapshot.jobs->0), x);
    }
    lemma_lookup_put(m1, "profiles"@, SettingValueView::StringList(profiles), x);
    lemma_lookup_put(m2, "quiet"@, SettingValueView::Bool(true), x);
    lemma_lookup_put(m3, "silent"@, SettingValueView::Bool(true), x);
}

/// A profile is enabled where it is named as it is, and disabled where it is named behind
/// an exclamation mark.
pub proof fn law_marked_profiles_are_disabled(names: Seq<Seq<char>>, name: Seq<char>)
    ensures
        unmarked(names).contains(name) <==> names.contains(name) && !(name.len() > 0 && name[0]
            == '!'),
        marked(names).contains(name) <==> names.contains(seq!['!'] + name),
    decreases names.len(),
{
    if names.len() > 0 {
        let init = names.drop_last();
        let last = names.last();
        law_marked_profiles_are_disabled(init, name);
        crate::seqs::lemma_last_or_before(names, name);
        crate::seqs::lemma_last_or_before(names, seq!['!'] + name);
        crate::seqs::lemma_pushed(unmarked(init), last, name);
        reveal_strlit("!");
        assert("!"@ =~= seq!['!']);
        if last.len() > 0 {
            assert(last.subrange(0, 1) =~= seq![last[0]]);
            if last.subrange(0, 1) == "!"@ {
                assert(last.subrange(0, 1)[0] == '!');
            }
            if last[0] == '!' {
                let rest = crate::text::after(last, 1);
                crate::seqs::lemma_pushed(marked(init), rest, name);
                assert(last =~= seq!['!'] + rest);
                if last == seq!['!'] + name {
                    assert(rest =~= name);
                }
            }
        }
        if last == seq!['!'] + name {
            assert(last[0] == '!');
        }
    }
}

/// What the program itself sets replaces what the flags say, but for lists, to which it
/// adds.
pub proof fn law_program_settings_come_last(
    map: Seq<(Seq<char>, SettingValueView)>,
    program: Seq<(Seq<char>, SettingValueView)>,
    key: Seq<char>,
)
    requires
        distinct(program),
    ensures
        ({
            let after = lookup(overlaid(map, program), key);
            &&& !has_key(program, key) ==> after == lookup(map, key)
            &&& has_key(program, key) ==> after == (match (lookup(map, key), lookup(program, key)->0) {
                (
                    Some(SettingValueView::StringList(a)),
                    SettingValueView::StringList(b),
                ) => Some(SettingValueView::StringList(push_all_new(a, b))),
                _ => lookup(program, key),
            })
        }),
    decreases program.len(),
{
    if program.len() > 0 {
        let init = program.drop_last();
        lemma_distinct_init(program);
        law_program_settings_come_last(map, init, key);
        let before = overlaid(map, init);
        let (name, value) = program.last();
        match (lookup(before, name), value) {
            (
                Some(SettingValueView::StringList(a)),
                SettingValueView::StringList(b),
            ) => {
                lemma_lookup_put(
                    before,
                    name,
                    SettingValueView::StringList(push_all_new(a, b)),
                    key,
                );
            },
            _ => {
                lemma_lookup_put(before, name, value, key);
            },
        }
        lemma_position(init, key);
        if name == key {
            assert(!has_key(init, key)) by {
                if has_key(init, key) {
                    assert(init[position(init, key)].0 != program.last().0);
                }
            }
        } else {
            assert(has_key(program, key) == has_key(init, key));
            assert(lookup(program, key) == lookup(init, key));
        }
    }
}

/// An explanation tells of each source that knows the setting what it says: the value, in
/// words, stands in it.
pub proof fn law_explanations_show_the_value(
    title: Seq<char>,
    names: Seq<Seq<char>>,
    value: SettingValueView,
    last: Option<Seq<char>>,
)
    requires
        names.len() > 0,
    ensures
        exists|a: Seq<char>, b: Seq<char>|
            source_lines(title, names, Some(value), last) == #[trigger] (a + shown_value(value) + b),
        exists|a: Seq<char>, b: Seq<char>|
            source_lines(title, names, None, last) == #[trigger] (a + joined(names, ", "@) + b),
        last is Some ==> exists|a: Seq<char>, b: Seq<char>|
            source_lines(title, names, Some(value), last) == #[trigger] (a + last->0 + b),
        source_lines(title, seq![], Some(value), last).len() == 0,
{
    let head = "  "@ + title + ": "@ + joined(names, ", "@) + "\n"@;
    let mark = "    ✓ Set to: "@;
    let shown = shown_value(value);
    let tail = match last {
        Some(source) => "    Source: "@ + source + "\n"@,
        None => seq![],
    };
    let whole = source_lines(title, names, Some(value), last);
    let end = "\n"@;
    assert(whole =~= (head + mark) + shown + (end + tail));
    let bare = source_lines(title, names, None, last);
    assert(bare =~= ("  "@ + title + ": "@) + joined(names, ", "@) + (end + tail));
    if last is Some {
        assert(whole =~= (head + mark + shown + end + "    Source: "@) + last->0 + end);
    }
}

/// An explanation stands under the key that was asked for, and tells of the sources from
/// the highest to the lowest; a key that is not known is an error that names it.
pub proof fn law_explanations_go_from_high_to_low(
    key: Seq<char>,
    meta: Seq<(Seq<char>, SettingMetaView)>,
    defaults: SettingsView,
    s: Sources,
    env_set: Seq<Seq<char>>,
    git_set: Seq<Seq<char>>,
)
    ensures
        ({
            let field = replaced_char(key, '-', "_"@);
            let r = explained(key, meta, defaults, s, env_set, git_set);
            &&& lookup(meta, field) is None ==> r == Err::<Seq<char>, Seq<char>>(
                "Unknown configuration key: "@ + key,
            )
            &&& lookup(meta, field) matches Some(m) ==> r is Ok && exists|
                last: Option<Seq<char>>,
                head: Seq<char>,
                tail: Seq<char>,
            |
                r->Ok_0 == #[trigger] five(
                    head,
                    source_lines("CLI FLAGS"@, m.cli, lookup(s.cli, field), last),
                    source_lines("ENVIRONMENT"@, m.env, lookup(s.env, field), last),
                    source_lines("GIT CONFIG"@, m.git, lookup(s.git, field), last) + source_lines(
                        "PKL CONFIG"@,
                        m.pkl,
                        lookup(s.pkl, field),
                        last,
                    ),
                    tail,
                )
        }),
{
    let field = replaced_char(key, '-', "_"@);
    if let Some(m) = lookup(meta, field) {
        let info = info_of(
            merged_info(meta, defaults_informed(meta, settings_fields(defaults)), s),
            field,
        );
        let ids = SourceIds {
            env: first_of_set(m.env, env_set),
            git: first_of_set(m.git, git_set),
            pkl: first_name(s.pkl, field, m.pkl),
            cli: first_name(s.cli, field, m.cli),
        };
        let last = match info.last {
            Some(source) => Some(shown_source(source, ids)),
            None => None,
        };
        let head = "Source resolution for '"@ + key + "' (in precedence order):\n"@
            + "================================================\n"@;
        let a = source_lines("CLI FLAGS"@, m.cli, lookup(s.cli, field), last);
        let b = source_lines("ENVIRONMENT"@, m.env, lookup(s.env, field), last);
        let c = source_lines("GIT CONFIG"@, m.git, lookup(s.git, field), last);
        let d = source_lines("PKL CONFIG"@, m.pkl, lookup(s.pkl, field), last);
        let whole = explained(key, meta, defaults, s, env_set, git_set)->Ok_0;
        let sources = head + a + b + c + d;
        let tail = whole.skip(sources.len() as int);
        assert(whole.take(sources.len() as int) =~= sources);
        assert(whole =~= sources + tail);
        assert(whole =~= five(head, a, b, c + d, tail));
    }
}

/// Five texts one behind the other.
pub open spec fn five(
    a: Seq<char>,
    b: Seq<char>,
    c: Seq<char>,
    d: Seq<char>,
    e: Seq<char>,
) -> Seq<char> {
    a + b + c + d + e
}

/// The name that a source is told by is the first of its names that is set.
pub proof fn law_the_first_set_name_is_told(names: Seq<Seq<char>>, set: Seq<Seq<char>>)
    ensures
        match first_of_set(names, set) {
            Some(n) => set.contains(n) && exists|i: int|
                0 <= i < names.len() && #[trigger] names[i] == n && forall|k: int|
                    0 <= k < i ==> !set.contains(#[trigger] names[k]),
            None => forall|k: int| 0 <= k < names.len() ==> !set.contains(#[trigger] names[k]),
        },
    decreases names.len(),
{
    if names.len() > 0 {
        let init = names.drop_last();
        law_the_first_set_name_is_told(init, set);
        let n = names.len() - 1;
        match first_of_set(init, set) {
            Some(x) => {
                let i = choose|i: int|
                    0 <= i < init.len() && #[trigger] init[i] == x && forall|k: int|
                        0 <= k < i ==> !set.contains(#[trigger] init[k]);
                assert(names[i] == x);
                assert forall|k: int| 0 <= k < i implies !set.contains(#[trigger] names[k]) by {
                    assert(!set.contains(init[k]));
                }
            },
            None => {
                assert forall|k: int| 0 <= k < n implies !set.contains(#[trigger] names[k]) by {
                    assert(!set.contains(init[k]));
                }
                assert(names[n] == names.last());
            },
        }
    }
}

/// Each setting is what the field of its name holds; lists hold their items once.
pub proof fn law_settings_hold_their_fields(fields: Seq<(Seq<char>, FieldValueView)>, item: Seq<char>)
    ensures
        settings_of(fields) matches Some(s) ==> {
            &&& lookup(fields, "jobs"@) == Some(FieldValueView::Number(s.jobs))
            &&& lookup(fields, "fail_fast"@) == Some(FieldValueView::Bool(s.fail_fast))
            &&& lookup(fields, "check"@) == Some(FieldValueView::Bool(s.check))
            &&& lookup(fields, "fix"@) == Some(FieldValueView::Bool(s.fix))
            &&& lookup(fields, "quiet"@) == Some(FieldValueView::Bool(s.quiet))
            &&& lookup(fields, "silent"@) == Some(FieldValueView::Bool(s.silent))
            &&& lookup(fields, "walk_ignore"@) == Some(FieldValueView::Bool(s.walk_ignore))
            &&& s.stage matches Some(b) ==> lookup(fields, "stage"@) == Some(FieldValueView::Bool(b))
            &&& s.stage is None ==> lookup(fields, "stage"@) is None || lookup(fields, "stage"@) == Some(
                FieldValueView::Null,
            )
            &&& lookup(fields, "profiles"@) matches Some(FieldValueView::List(l)) && (
            s.profiles.contains(item) <==> l.contains(item))
            &&& lookup(fields, "skip_hooks"@) matches Some(FieldValueView::List(l)) && (
            s.skip_hooks.contains(item) <==> l.contains(item))
            &&& lookup(fields, "skip_steps"@) matches Some(FieldValueView::List(l)) && (
            s.skip_steps.contains(item) <==> l.contains(item))
            &&& lookup(fields, "exclude"@) matches Some(FieldValueView::List(l)) && (
            s.exclude.contains(item) <==> l.contains(item))
            &&& lookup(fields, "warnings"@) matches Some(FieldValueView::List(l)) && (
            s.warnings.contains(item) <==> l.contains(item))
            &&& lookup(fields, "hide_warnings"@) matches Some(FieldValueView::List(l)) && (
            s.hide_warnings.contains(item) <==> l.contains(item))
            &&& lookup(fields, "display_skip_reasons"@) matches Some(FieldValueView::List(l)) && (
            s.display_skip_reasons.contains(item) <==> l.contains(item))
        },
{
    if settings_of(fields) is Some {
        lemma_push_all_new(seq![], lookup(fields, "profiles"@)->0->List_0);
        lemma_push_all_new(seq![], lookup(fields, "skip_hooks"@)->0->List_0);
        lemma_push_all_new(seq![], lookup(fields, "skip_steps"@)->0->List_0);
        lemma_push_all_new(seq![], lookup(fields, "exclude"@)->0->List_0);
        lemma_push_all_new(seq![], lookup(fields, "warnings"@)->0->List_0);
        lemma_push_all_new(seq![], lookup(fields, "hide_warnings"@)->0->List_0);
        lemma_push_all_new(seq![], lookup(fields, "display_skip_reasons"@)->0->List_0);
    }
}

/// The texts of an array are those among its values.
pub proof fn law_arrays_give_their_texts(values: Seq<JsonView>, text: Seq<char>)
    ensures
        array_texts(values).contains(text) <==> values.contains(JsonView::String(text)),
    decreases values.len(),
{
    if values.len() > 0 {
        let init = values.drop_last();
        law_arrays_give_their_texts(init, text);
        crate::seqs::lemma_last_or_before(values, JsonView::String(text));
        if values.last().text() is Some {
            crate::seqs::lemma_pushed(array_texts(init), values.last().text()->0, text);
        }
    }
}

/// The lines on a list tell every item with every source that it has.
pub proof fn law_every_item_is_told(
    items: Seq<(Seq<char>, Seq<SettingSource>)>,
    ids: SourceIds,
    i: int,
    j: int,
)
    requires
        0 <= i < items.len(),
    ensures
        crate::text::has_text(item_lines(items, ids), items[i].0),
        0 <= j < items[i].1.len() ==> crate::text::has_text(
            item_lines(items, ids),
            shown_source(items[i].1[j], ids),
        ),
    decreases items.len(),
{
    let init = items.drop_last();
    let before = item_lines(init, ids);
    let last = item_line(items.last(), ids);
    let all = before + last;
    crate::text::lemma_two_stand(before, last);
    if i < init.len() {
        law_every_item_is_told(init, ids, i, j);
        crate::text::lemma_stands_within(all, before, items[i].0);
        if 0 <= j < items[i].1.len() {
            crate::text::lemma_stands_within(all, before, shown_source(items[i].1[j], ids));
        }
    } else {
        let shown = items[i].1.map_values(|s: SettingSource| shown_source(s, ids));
        crate::text::lemma_five_stand(
            "    - "@,
            items[i].0,
            ": "@,
            joined(shown, ", "@),
            "\n"@,
        );
        crate::text::lemma_stands_within(all, last, items[i].0);
        if 0 <= j < items[i].1.len() {
            crate::text::lemma_part_stands_in_joined(shown, ", "@, j);
            crate::text::lemma_stands_within(last, joined(shown, ", "@), shown[j]);
            crate::text::lemma_stands_within(all, last, shown[j]);
        }
    }
}

/// A source is told by what it is and by the name that spoke.
pub proof fn law_sources_are_told_by_name(ids: SourceIds)
    ensures
        ids.env matches Some(id) ==> shown_source(SettingSource::Env, ids) == "env("@ + id + ")"@,
        ids.git matches Some(id) ==> shown_source(SettingSource::Git, ids) == "git("@ + id + ")"@,
        ids.pkl matches Some(id) ==> shown_source(SettingSource::Pkl, ids) == "pkl("@ + id + ")"@,
        ids.cli matches Some(id) ==> shown_source(SettingSource::Cli, ids) == "cli("@ + id + ")"@,
        ids.env is None ==> shown_source(SettingSource::Env, ids) == "env"@,
        ids.git is None ==> shown_source(SettingSource::Git, ids) == "git"@,
        ids.pkl is None ==> shown_source(SettingSource::Pkl, ids) == "pkl"@,
        ids.cli is None ==> shown_source(SettingSource::Cli, ids) == "cli"@,
{
    reveal_strlit("env");
    reveal_strlit("git");
    reveal_strlit("pkl");
    reveal_strlit("cli");
    reveal_strlit("(");
    reveal_strlit("env(");
    reveal_strlit("git(");
    reveal_strlit("pkl(");
    reveal_strlit("cli(");
    assert("env"@ + "("@ =~= "env("@);
    assert("git"@ + "("@ =~= "git("@);
    assert("pkl"@ + "("@ =~= "pkl("@);
    assert("cli"@ + "("@ =~= "cli("@);
}

/// The items of every source count for a setting that says so, and for no other.
pub proof fn law_only_union_settings_collect(meta: SettingMetaView)
    ensures
        is_union(meta) <==> meta.merge is Some && meta.merge->0 == "union"@,
{
}

/// A flag is shown as the word for it, a number in decimal, and a text as it is.
pub proof fn law_values_are_shown_as_they_are(b: bool, n: usize, text: Seq<char>)
    ensures
        b ==> shown_value(SettingValueView::Bool(b)) == "true"@,
        !b ==> shown_value(SettingValueView::Bool(b)) == "false"@,
        shown_value(SettingValueView::Usize(n)) == decimal(n as nat),
        shown_value(SettingValueView::String(text)) == text,
        shown_value(SettingValueView::Path(text)) == text,
{
}

/// A source that speaks of a setting is told by the first of the names that it can have
/// there.
pub proof fn law_speaking_sources_are_told_by_name(
    map: Seq<(Seq<char>, SettingValueView)>,
    field: Seq<char>,
    names: Seq<Seq<char>>,
)
    ensures
        first_name(map, field, names) is Some <==> lookup(map, field) is Some && names.len() > 0,
        first_name(map, field, names) is Some ==> first_name(map, field, names)->0 == names[0],
{
    lemma_position(map, field);
}

} // verus!
