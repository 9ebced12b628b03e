//! The typed record schema: the entity shapes the corpus decodes into. The
//! structs here hold plain values; maps are held as key/value pair lists in
//! document order, free-form values as structural JSON trees, and decimal
//! numbers that are not integers as their original lexeme. The decode layer
//! for most records is a consumer of the coercion primitives and lives with
//! the schema's users; `ElementsXTriggers` carries its decoder here as the
//! worked case, since its table mixes all three physical shapes.

use vstd::prelude::*;
use crate::coerce::{CoerceError, StringMapOrArray, StringOrI32, StringOrStringArray, StringOrStruct};
use crate::json::{deep_elems, deep_fields, lemma_deep_elems, lemma_deep_fields, JsonV, JsonValue};

verus! {

/// A whole decoded document: one list per record kind, empty where absent.
pub struct Data {
    pub achievements: Vec<Achievements>,
    pub cultures: Vec<Cultures>,
    pub decks: Vec<Decks>,
    pub dicta: Vec<Dicta>,
    pub elements: Vec<Elements>,
    pub endings: Vec<Endings>,
    pub legacies: Vec<Legacies>,
    pub levers: Vec<Levers>,
    pub portals: Vec<Portals>,
    pub recipes: Vec<Recipes>,
    pub settings: Vec<Settings>,
    pub verbs: Vec<Verbs>,
}

pub struct Achievements {
    pub category: Option<String>,
    pub description_unlocked: Option<String>,
    pub icon_unlocked: String,
    pub id: String,
    pub is_category: bool,
    pub is_hidden: bool,
    pub label: String,
    pub single_description: bool,
    pub validate_on_storefront: bool,
}

pub struct Cultures {
    pub bold_allowed: bool,
    pub endonym: String,
    pub exonym: String,
    pub fontscript: String,
    pub id: String,
    pub released: bool,
    pub ui_labels: Vec<(String, String)>,
}

pub struct Decks {
    pub comments: Option<String>,
    pub draw_messages: Option<Vec<(String, String)>>,
    pub default_card: Option<String>,
    pub desc: Option<String>,
    pub id: String,
    pub label: Option<String>,
    pub reset_on_exhaustion: bool,
    pub spec: Vec<String>,
}

/// Durations and speeds are decimal lexemes kept as written.
pub struct Dicta {
    pub alternative_default_world_sphere_paths: Vec<String>,
    pub default_card_back: Option<String>,
    pub default_game_speed: String,
    pub default_long_travel_duration: Option<String>,
    pub default_quick_travel_duration: Option<String>,
    pub default_travel_duration: Option<String>,
    pub default_world_sphere_path: String,
    pub game_over_scene: String,
    pub id: String,
    pub loading_scene: Option<String>,
    pub logo_scene: String,
    pub max_suitability_pulse_frequency: Option<String>,
    pub menu_scene: String,
    pub new_game_scene: String,
    pub note_element_id: String,
    pub playfield_scene: String,
    pub quote_scene: String,
    pub stored_manifestation: Option<String>,
    pub stored_phyical_manifestation: Option<String>,
    pub suitability_pulse_speed: Option<String>,
    pub world_sphere_type: String,
}

/// The element lifetime is a decimal lexeme kept as written.
pub struct Elements {
    pub achievements: Vec<String>,
    pub alpha_label_override: Option<String>,
    pub ambits: Vec<(String, u32)>,
    pub aspects: Vec<(String, u32)>,
    pub audio: Option<String>,
    pub burn_to: Option<String>,
    pub comments: Option<String>,
    pub commute: Option<Vec<String>>,
    pub decay_to: Option<String>,
    pub description: Option<String>,
    pub icon: Option<String>,
    pub id: String,
    pub induces: Option<Vec<ElementsInduces>>,
    pub imms: Option<Vec<ElementsImms>>,
    pub inherits: Option<String>,
    pub is_aspect: bool,
    pub is_hidden: bool,
    pub label: Option<String>,
    pub lever: Option<String>,
    pub lifetime: Option<String>,
    pub manifestation_type: Option<String>,
    pub metafictional: bool,
    pub no_art_needed: bool,
    pub resaturate: bool,
    pub reverse_ambit_tables_display: bool,
    pub slots: Vec<ElementsSlots>,
    pub sort: Option<String>,
    pub unique: bool,
    pub uniqueness_group: Option<String>,
    pub verb_icon: Option<String>,
    pub xexts: Vec<(String, String)>,
    pub xtriggers: Option<Vec<(String, StringMapOrArray<StringOrStruct<ElementsXTriggers>>)>>,
}

pub struct ElementsInduces {
    pub chance: u32,
    pub id: String,
}

pub struct ElementsImms {
    pub effects: Vec<(String, JsonValue)>,
    pub reqs: Vec<(String, u32)>,
}

pub struct ElementsSlots {
    pub action_id: String,
    pub consumes: bool,
    pub description: Option<String>,
    pub essential: Vec<(String, u32)>,
    pub forbidden: Vec<(String, i32)>,
    pub id: String,
    pub if_aspects_present: Option<Vec<(String, u32)>>,
    pub label: Option<String>,
    pub required: Vec<(String, u32)>,
}

#[derive(Debug, PartialEq)]
pub struct ElementsXTriggers {
    pub additive: bool,
    pub chance: u32,
    pub id: String,
    pub level: Option<JsonValue>,
    pub morpheffect: Option<String>,
}

pub struct Endings {
    pub achievements: Option<Vec<String>>,
    pub anim: Option<String>,
    pub comments: Option<String>,
    pub description: Option<String>,
    pub flavour: String,
    pub id: String,
    pub image: String,
    pub label: String,
}

pub struct Legacies {
    pub derives: Option<String>,
    pub available_without_ending_match: bool,
    pub comments: Option<String>,
    pub description: String,
    pub effects: Option<Vec<(String, u32)>>,
    pub excludes_on_ending: Option<Vec<String>>,
    pub family: Option<String>,
    pub from_ending: String,
    pub id: String,
    pub image: Option<String>,
    pub label: Option<String>,
    pub new_start: bool,
    pub start_description: Option<String>,
    pub starting_verb_id: Option<String>,
    pub startup: Option<Vec<LegaciesStartup>>,
    pub statusbar_elements: Option<Vec<StringOrStruct<LegaciesStatusbarElements>>>,
    pub table_cover_image: Option<String>,
}

pub struct LegaciesStartup {
    pub id: String,
    pub to_path: String,
}

pub struct LegaciesStatusbarElements {
    pub format: Option<Vec<String>>,
    pub ids: StringOrStringArray,
    pub styles: StringOrStringArray,
}

pub struct Levers {
    pub comments: Option<String>,
    pub default_value: String,
    pub id: String,
    pub on_game_end: bool,
    pub redirects: Option<Vec<(String, String)>>,
    pub required_score: u32,
    pub weights: Option<Vec<(String, i32)>>,
}

pub struct Portals {
    pub consequences: Option<Vec<PortalsConsequences>>,
    pub description: String,
    pub egress_id: String,
    pub icon: String,
    pub id: String,
    pub label: String,
    pub otherworld_id: String,
}

pub struct PortalsConsequences {
    pub deckeffects: Option<Vec<(String, u32)>>,
    pub id: String,
    pub topath: String,
}

pub struct Recipes {
    pub achievements: Vec<String>,
    pub action_id: Option<String>,
    pub alt: Option<Vec<RecipesAlt>>,
    pub ambit_table: bool,
    pub aspects: Option<Vec<(String, i32)>>,
    pub audio_oneshot: Option<String>,
    pub blocks: bool,
    pub burnimage: Option<String>,
    pub comments: Option<String>,
    pub craftable: bool,
    pub deck_effects: Option<Vec<(String, u32)>>,
    pub deleteverb: Option<Vec<(String, u32)>>,
    pub description: Option<String>,
    pub effects: Option<Vec<(String, StringOrI32)>>,
    pub ending: Option<String>,
    pub extant_reqs: Option<Vec<(String, i32)>>,
    pub fx: Option<Vec<(String, JsonValue)>>,
    pub fx_reqs: Option<Vec<(String, String)>>,
    pub g_req: Option<Vec<(String, i32)>>,
    pub haltverb: Option<Vec<(String, u32)>>,
    pub hint_only: bool,
    pub icon: Option<String>,
    pub id: String,
    pub inductions: Option<Vec<RecipesInductions>>,
    pub inherits: Option<String>,
    pub internal_deck: Option<RecipesInternalDeck>,
    pub label: Option<String>,
    pub l_alt: Option<String>,
    pub linked: Option<StringMapOrArray<StringOrStruct<RecipesLinked>>>,
    pub max_executions: Option<u32>,
    pub mutations: Option<StringMapOrArray<StringOrStruct<RecipesMutations>>>,
    pub ng_req: Option<Vec<(String, i32)>>,
    pub notable: bool,
    pub portal_effect: Option<String>,
    pub preface: Option<String>,
    pub preslots: Option<Vec<RecipesPreslots>>,
    pub purge: Option<Vec<(String, u32)>>,
    pub requirements: Option<Vec<(String, StringOrI32)>>,
    pub run: Option<String>,
    pub signal_ending_flavour: Option<String>,
    pub signal_important_loop: bool,
    pub slots: Option<Vec<RecipesSlots>>,
    pub start_description: Option<String>,
    pub start_label: Option<String>,
    pub table_reqs: Option<Vec<(String, u32)>>,
    pub warmup: Option<u32>,
    pub xpans: Option<Vec<(String, u32)>>,
}

pub struct RecipesAlt {
    pub actionid: Option<String>,
    pub additional: bool,
    pub challenges: Option<Vec<(String, String)>>,
    pub chance: Option<u32>,
    pub craftable: bool,
    pub deck_effects: Option<Vec<(String, u32)>>,
    pub description: Option<String>,
    pub effects: Option<Vec<(String, StringOrI32)>>,
    pub ending: Option<String>,
    pub expulsion: Option<RecipesLinkedExpulsion>,
    pub extant_reqs: Option<Vec<(String, i32)>>,
    pub id: String,
    pub label: Option<String>,
    pub mutations: Option<StringMapOrArray<StringOrStruct<RecipesMutations>>>,
    pub requirements: Option<Vec<(String, i32)>>,
    pub signal_ending_flavour: Option<String>,
    pub start_description: Option<String>,
}

pub struct RecipesInternalDeck {
    pub default_card: Option<String>,
    pub description: Option<String>,
    pub draws: u32,
    pub label: Option<String>,
    pub reset_on_exhaustion: bool,
    pub spec: Vec<String>,
}

pub struct RecipesLinked {
    pub actionid: Option<String>,
    pub additional: bool,
    pub challenges: Option<Vec<(String, String)>>,
    pub chance: Option<u32>,
    pub effects: Option<Vec<(String, u32)>>,
    pub expulsion: Option<RecipesLinkedExpulsion>,
    pub extant_reqs: Option<Vec<(String, i32)>>,
    pub id: String,
    pub label: Option<String>,
    pub linked: Option<Vec<Vec<(String, String)>>>,
    pub mutations: Option<StringMapOrArray<StringOrStruct<RecipesMutations>>>,
    pub output_path: Option<String>,
    pub purge: Option<Vec<(String, u32)>>,
    pub requirements: Option<Vec<(String, i32)>>,
    pub shuffle: bool,
    pub startdescription: Option<String>,
    pub topath: Option<String>,
    pub warmup: Option<u32>,
}

pub struct RecipesInductions {
    pub chance: Option<u32>,
    pub id: String,
}

pub struct RecipesLinkedExpulsion {
    pub filter: Vec<(String, u32)>,
    pub limit: u32,
}

#[derive(Debug, PartialEq)]
pub struct RecipesMutations {
    pub additive: bool,
    pub filter: String,
    pub level: StringOrI32,
    pub mutate: String,
}

pub struct RecipesPreslots {
    pub description: Option<String>,
    pub essential: Option<Vec<(String, u32)>>,
    pub forbidden: Option<Vec<(String, u32)>>,
    pub id: String,
    pub label: String,
    pub required: Option<Vec<(String, u32)>>,
}

pub struct RecipesSlots {
    pub actionid: Option<String>,
    pub consumes: bool,
    pub description: Option<String>,
    pub essential: Option<Vec<(String, i32)>>,
    pub forbidden: Option<Vec<(String, i32)>>,
    pub frompath: Option<String>,
    pub greedy: bool,
    pub id: String,
    pub label: Option<String>,
    pub required: Option<Vec<(String, i32)>>,
}

pub struct Settings {
    pub datatype: Option<String>,
    pub default_value: Option<JsonValue>,
    pub hint: Option<String>,
    pub id: String,
    pub max_value: Option<i32>,
    pub min_value: Option<i32>,
    pub platform_default_values: Option<Vec<(String, String)>>,
    pub tab_id: Option<String>,
    pub ui: Option<String>,
    pub value_labels: Option<Vec<(String, String)>>,
    pub valuenotifications: Option<Vec<(String, String)>>,
}

pub struct Verbs {
    pub ambits: bool,
    pub aspects: Option<Vec<(String, u32)>>,
    pub audio: Option<String>,
    pub category: Option<String>,
    pub comments: Option<String>,
    pub description: Option<String>,
    pub hints: Option<Vec<String>>,
    pub icon: Option<String>,
    pub id: String,
    pub label: Option<String>,
    pub max_notes: Option<u32>,
    pub multiple: bool,
    pub slot: Option<VerbsSlot>,
    pub slots: Option<Vec<VerbsSlot>>,
    pub spontaneous: bool,
    pub xtriggers: Option<Vec<(String, String)>>,
}

pub struct VerbsSlot {
    pub description: Option<String>,
    pub essential: Option<Vec<(String, u32)>>,
    pub forbidden: Option<Vec<(String, u32)>>,
    pub id: String,
    pub label: Option<String>,
    pub required: Option<Vec<(String, u32)>>,
}

/// Why a record did not decode.
#[derive(Debug, PartialEq, Eq, Structural, Clone, Copy)]
pub enum DataError {
    /// A key the record does not declare: unknown fields are hard errors.
    UnknownField,
    /// A key written twice in one object.
    DuplicateField,
    /// A required key that is absent.
    MissingField,
    /// A value of the wrong physical shape or range.
    BadValue(CoerceError),
}

/// Model of an `ElementsXTriggers` record.
pub struct ElementsXTriggersV {
    pub additive: bool,
    pub chance: u32,
    pub id: Seq<char>,
    pub level: Option<JsonV>,
    pub morpheffect: Option<Seq<char>>,
}

impl View for ElementsXTriggers {
    type V = ElementsXTriggersV;

    open spec fn view(&self) -> ElementsXTriggersV {
        ElementsXTriggersV {
            additive: self.additive,
            chance: self.chance,
            id: self.id@,
            level: match self.level {
                None => None,
                Some(v) => Some(v.deep()),
            },
            morpheffect: match self.morpheffect {
                None => None,
                Some(ref s) => Some(s@),
            },
        }
    }
}

/// The fields of an `ElementsXTriggers` record as they are read, each
/// unset until its key arrives.
pub struct XtFields {
    pub additive: Option<bool>,
    pub chance: Option<u32>,
    pub id: Option<Seq<char>>,
    pub level: Option<JsonV>,
    pub morpheffect: Option<Seq<char>>,
}

/// The state before any key is read.
pub open spec fn spec_xt_init() -> XtFields {
    XtFields { additive: None, chance: None, id: None, level: None, morpheffect: None }
}

/// Read one key of an `ElementsXTriggers` record: each key must be declared
/// and fresh, and its value of the declared shape.
pub open spec fn spec_xt_step(st: XtFields, key: Seq<char>, v: JsonV) -> Result<
    XtFields,
    DataError,
> {
    if key == "additive"@ {
        if st.additive is Some {
            Err(DataError::DuplicateField)
        } else {
            match v {
                JsonV::Bool(b) => Ok(XtFields { additive: Some(b), ..st }),
                _ => Err(DataError::BadValue(CoerceError::WrongShape)),
            }
        }
    } else if key == "chance"@ {
        if st.chance is Some {
            Err(DataError::DuplicateField)
        } else {
            match v {
                JsonV::Int(n) => if 0 <= n <= 0xffff_ffff {
                    Ok(XtFields { chance: Some(n as u32), ..st })
                } else {
                    Err(DataError::BadValue(CoerceError::OutOfRange))
                },
                _ => Err(DataError::BadValue(CoerceError::WrongShape)),
            }
        }
    } else if key == "id"@ {
        if st.id is Some {
            Err(DataError::DuplicateField)
        } else {
            match v {
                JsonV::Str(t) => Ok(XtFields { id: Some(t), ..st }),
                _ => Err(DataError::BadValue(CoerceError::WrongShape)),
            }
        }
    } else if key == "level"@ {
        if st.level is Some {
            Err(DataError::DuplicateField)
        } else {
            Ok(XtFields { level: Some(v), ..st })
        }
    } else if key == "morpheffect"@ {
        if st.morpheffect is Some {
            Err(DataError::DuplicateField)
        } else {
            match v {
                JsonV::Str(t) => Ok(XtFields { morpheffect: Some(t), ..st }),
                JsonV::Null => Ok(XtFields { morpheffect: None, ..st }),
                _ => Err(DataError::BadValue(CoerceError::WrongShape)),
            }
        }
    } else {
        Err(DataError::UnknownField)
    }
}

/// Read the keys of an `ElementsXTriggers` object from `i` on.
pub open spec fn spec_xt_fold(fs: Seq<(Seq<char>, JsonV)>, i: int, st: XtFields) -> Result<
    XtFields,
    DataError,
>
    decreases fs.len() - i,
{
    if i < 0 || i >= fs.len() {
        Ok(st)
    } else {
        match spec_xt_step(st, fs[i].0, fs[i].1) {
            Ok(st2) => spec_xt_fold(fs, i + 1, st2),
            Err(e) => Err(e),
        }
    }
}

/// Which `ElementsXTriggers` record an object decodes to: keys read in
/// order, `id` required, `additive` defaulting to false and `chance` to
/// 100, unknown keys rejected.
pub open spec fn spec_xt_decode(v: JsonV) -> Result<ElementsXTriggersV, DataError> {
    match v {
        JsonV::Obj(fs) => match spec_xt_fold(fs, 0, spec_xt_init()) {
            Err(e) => Err(e),
            Ok(st) => match st.id {
                None => Err(DataError::MissingField),
                Some(id) => Ok(
                    ElementsXTriggersV {
                        additive: match st.additive {
                            None => false,
                            Some(b) => b,
                        },
                        chance: match st.chance {
                            None => 100,
                            Some(n) => n,
                        },
                        id,
                        level: st.level,
                        morpheffect: st.morpheffect,
                    },
                ),
            },
        },
        _ => Err(DataError::BadValue(CoerceError::WrongShape)),
    }
}

impl ElementsXTriggers {
    /// Decode one record from an object: keys in any order, each at most
    /// once, unknown keys rejected; `id` required; `additive` defaults to
    /// false and `chance` to the usual 100.
    #[verifier::loop_isolation(false)]
    pub fn decode(v: &JsonValue) -> (r: Result<ElementsXTriggers, DataError>)
        ensures
            match spec_xt_decode(v.deep()) {
                Ok(w) => r matches Ok(x) && x@ == w,
                Err(e) => r == Err::<ElementsXTriggers, DataError>(e),
            },
    {
        let fields = match v {
            JsonValue::Obj(fields) => fields,
            _ => {
                return Err(DataError::BadValue(CoerceError::WrongShape));
            },
        };
        let ghost dfs = deep_fields(fields@);
        proof {
            lemma_deep_fields(fields@);
        }
        let key_additive = String::from_str("additive");
        let key_chance = String::from_str("chance");
        let key_id = String::from_str("id");
        let key_level = String::from_str("level");
        let key_morpheffect = String::from_str("morpheffect");
        proof {
            reveal_strlit("additive");
            reveal_strlit("chance");
            reveal_strlit("id");
            reveal_strlit("level");
            reveal_strlit("morpheffect");
        }
        let mut additive: Option<bool> = None;
        let mut chance: Option<u32> = None;
        let mut id: Option<String> = None;
        let mut level: Option<JsonValue> = None;
        let mut morpheffect: Option<String> = None;
        let ghost mut st = spec_xt_init();
        let n = fields.len();
        let mut k: usize = 0;
        while k < n
            invariant
                k <= n,
                spec_xt_fold(dfs, 0, spec_xt_init()) == spec_xt_fold(dfs, k as int, st),
                st.additive == additive,
                st.chance == chance,
                match (st.id, &id) {
                    (None, None) => true,
                    (Some(w), Some(s)) => w == s@,
                    _ => false,
                },
                match (st.level, &level) {
                    (None, None) => true,
                    (Some(w), Some(x)) => w == x.deep(),
                    _ => false,
                },
                match (st.morpheffect, &morpheffect) {
                    (None, None) => true,
                    (Some(w), Some(s)) => w == s@,
                    _ => false,
                },
            decreases n - k,
        {
            let entry = &fields[k];
            let ghost key = dfs[k as int].0;
            let ghost val = dfs[k as int].1;
            if entry.0 == key_additive {
                if additive.is_some() {
                    return Err(DataError::DuplicateField);
                }
                match &entry.1 {
                    JsonValue::Bool(b) => {
                        additive = Some(*b);
                    },
                    _ => {
                        return Err(DataError::BadValue(CoerceError::WrongShape));
                    },
                }
            } else if entry.0 == key_chance {
                if chance.is_some() {
                    return Err(DataError::DuplicateField);
                }
                match &entry.1 {
                    JsonValue::Int(m) => {
                        let m = *m;
                        if 0i64 <= m && m <= 0xffff_ffffi64 {
                            chance = Some(m as u32);
                        } else {
                            return Err(DataError::BadValue(CoerceError::OutOfRange));
                        }
                    },
                    _ => {
                        return Err(DataError::BadValue(CoerceError::WrongShape));
                    },
                }
            } else if entry.0 == key_id {
                if id.is_some() {
                    return Err(DataError::DuplicateField);
                }
                match &entry.1 {
                    JsonValue::Str(t) => {
                        id = Some(t.clone());
                    },
                    _ => {
                        return Err(DataError::BadValue(CoerceError::WrongShape));
                    },
                }
            } else if entry.0 == key_level {
                if level.is_some() {
                    return Err(DataError::DuplicateField);
                }
                level = Some(entry.1.duplicate());
            } else if entry.0 == key_morpheffect {
                if morpheffect.is_some() {
                    return Err(DataError::DuplicateField);
                }
                match &entry.1 {
                    JsonValue::Str(t) => {
                        morpheffect = Some(t.clone());
                    },
                    JsonValue::Null => {
                        morpheffect = None;
                    },
                    _ => {
                        return Err(DataError::BadValue(CoerceError::WrongShape));
                    },
                }
            } else {
                return Err(DataError::UnknownField);
            }
            proof {
                st = spec_xt_step(st, key, val)->Ok_0;
            }
            k = k + 1;
        }
        let id = match id {
            Some(s) => s,
            None => {
                return Err(DataError::MissingField);
            },
        };
        Ok(
            ElementsXTriggers {
                additive: match additive {
                    None => false,
                    Some(b) => b,
                },
                chance: match chance {
                    None => 100,
                    Some(n) => n,
                },
                id,
                level,
                morpheffect,
            },
        )
    }

    /// Write the record back as an object, every field written out.
    pub fn to_json(&self) -> (r: JsonValue)
        ensures
            r.deep() == spec_xt_json(self@),
    {
        let mut fields: Vec<(String, JsonValue)> = Vec::new();
        fields.push((String::from_str("additive"), JsonValue::Bool(self.additive)));
        fields.push((String::from_str("chance"), JsonValue::Int(self.chance as i64)));
        fields.push((String::from_str("id"), JsonValue::Str(self.id.clone())));
        fields.push(
            (
                String::from_str("level"),
                match &self.level {
                    None => JsonValue::Null,
                    Some(v) => v.duplicate(),
                },
            ),
        );
        fields.push(
            (
                String::from_str("morpheffect"),
                match &self.morpheffect {
                    None => JsonValue::Null,
                    Some(t) => JsonValue::Str(t.clone()),
                },
            ),
        );
        let r = JsonValue::Obj(fields);
        proof {
            lemma_deep_fields(fields@);
            assert(deep_fields(fields@) =~= spec_xt_json(self@)->Obj_0);
        }
        r
    }
}

/// The object an `ElementsXTriggers` record writes back to.
pub open spec fn spec_xt_json(w: ElementsXTriggersV) -> JsonV {
    JsonV::Obj(
        seq![
            ("additive"@, JsonV::Bool(w.additive)),
            ("chance"@, JsonV::Int(w.chance as int)),
            ("id"@, JsonV::Str(w.id)),
            (
                "level"@,
                match w.level {
                    None => JsonV::Null,
                    Some(v) => v,
                },
            ),
            (
                "morpheffect"@,
                match w.morpheffect {
                    None => JsonV::Null,
                    Some(t) => JsonV::Str(t),
                },
            ),
        ],
    )
}

/// Model of a shorthand-or-record value over `ElementsXTriggers`.
pub enum StringOrXtV {
    Str(Seq<char>),
    Struct(ElementsXTriggersV),
}

impl View for StringOrStruct<ElementsXTriggers> {
    type V = StringOrXtV;

    open spec fn view(&self) -> StringOrXtV {
        match self {
            StringOrStruct::Str(t) => StringOrXtV::Str(t@),
            StringOrStruct::Struct(x) => StringOrXtV::Struct(x@),
        }
    }
}

/// Which shorthand-or-record a value decodes to: a bare string is the
/// shorthand, an object is the full record.
pub open spec fn spec_string_or_xt(v: JsonV) -> Result<StringOrXtV, DataError> {
    match v {
        JsonV::Str(t) => Ok(StringOrXtV::Str(t)),
        JsonV::Obj(..) => match spec_xt_decode(v) {
            Ok(w) => Ok(StringOrXtV::Struct(w)),
            Err(e) => Err(e),
        },
        _ => Err(DataError::BadValue(CoerceError::WrongShape)),
    }
}

/// The value a shorthand-or-record writes back: the shape it was given in.
pub open spec fn spec_string_or_xt_json(w: StringOrXtV) -> JsonV {
    match w {
        StringOrXtV::Str(t) => JsonV::Str(t),
        StringOrXtV::Struct(x) => spec_xt_json(x),
    }
}

/// Accept a bare string (a shorthand reference) or a full record object.
pub fn decode_string_or_xt(v: &JsonValue) -> (r: Result<
    StringOrStruct<ElementsXTriggers>,
    DataError,
>)
    ensures
        match spec_string_or_xt(v.deep()) {
            Ok(w) => r matches Ok(x) && x@ == w,
            Err(e) => r == Err::<StringOrStruct<ElementsXTriggers>, DataError>(e),
        },
{
    match v {
        JsonValue::Str(t) => Ok(StringOrStruct::Str(t.clone())),
        JsonValue::Obj(..) => match ElementsXTriggers::decode(v) {
            Ok(x) => Ok(StringOrStruct::Struct(x)),
            Err(e) => Err(e),
        },
        _ => Err(DataError::BadValue(CoerceError::WrongShape)),
    }
}

/// Write a shorthand-or-record back in the shape it was given in.
pub fn encode_string_or_xt(w: &StringOrStruct<ElementsXTriggers>) -> (r: JsonValue)
    ensures
        r.deep() == spec_string_or_xt_json(w@),
{
    match w {
        StringOrStruct::Str(t) => JsonValue::Str(t.clone()),
        StringOrStruct::Struct(x) => x.to_json(),
    }
}

/// Model of one xtriggers table entry: a bare string, one record, or a list.
pub enum XtEntryV {
    Str(Seq<char>),
    One(StringOrXtV),
    Arr(Seq<StringOrXtV>),
}

impl View for StringMapOrArray<StringOrStruct<ElementsXTriggers>> {
    type V = XtEntryV;

    open spec fn view(&self) -> XtEntryV {
        match self {
            StringMapOrArray::Str(t) => XtEntryV::Str(t@),
            StringMapOrArray::One(x) => XtEntryV::One(x@),
            StringMapOrArray::Arr(vs) => XtEntryV::Arr(Seq::new(vs@.len(), |i: int| vs@[i]@)),
        }
    }
}

/// The shorthand-or-records of a sequence of values, each a string or an
/// object; the first failure is the list's failure.
pub open spec fn spec_xt_elems(vs: Seq<JsonV>) -> Result<Seq<StringOrXtV>, DataError>
    decreases vs.len(),
{
    if vs.len() == 0 {
        Ok(Seq::empty())
    } else {
        match (spec_xt_elems(vs.drop_last()), spec_string_or_xt(vs.last())) {
            (Ok(rest), Ok(w)) => Ok(rest.push(w)),
            (Err(e), _) => Err(e),
            (Ok(..), Err(e)) => Err(e),
        }
    }
}

proof fn lemma_xt_elems_extend_err(vs: Seq<JsonV>, m: int)
    requires
        0 <= m <= vs.len(),
        spec_xt_elems(vs.take(m)) is Err,
    ensures
        spec_xt_elems(vs) == spec_xt_elems(vs.take(m)),
    decreases vs.len() - m,
{
    if m < vs.len() {
        assert(vs.take(m + 1).drop_last() =~= vs.take(m));
        lemma_xt_elems_extend_err(vs, m + 1);
    } else {
        assert(vs.take(m) =~= vs);
    }
}

/// Which table entry a value decodes to: a bare string, a single object
/// decoded as one shorthand-or-record, or an array of shorthand-or-records,
/// remembered as whichever shape was given.
pub open spec fn spec_xt_entry(v: JsonV) -> Result<XtEntryV, DataError> {
    match v {
        JsonV::Str(t) => Ok(XtEntryV::Str(t)),
        JsonV::Obj(..) => match spec_string_or_xt(v) {
            Ok(w) => Ok(XtEntryV::One(w)),
            Err(e) => Err(e),
        },
        JsonV::Arr(vs) => match spec_xt_elems(vs) {
            Ok(ws) => Ok(XtEntryV::Arr(ws)),
            Err(e) => Err(e),
        },
        _ => Err(DataError::BadValue(CoerceError::WrongShape)),
    }
}

/// The value a table entry writes back: the shape it was given in.
pub open spec fn spec_xt_entry_json(w: XtEntryV) -> JsonV {
    match w {
        XtEntryV::Str(t) => JsonV::Str(t),
        XtEntryV::One(x) => spec_string_or_xt_json(x),
        XtEntryV::Arr(ws) => JsonV::Arr(ws.map_values(|x: StringOrXtV| spec_string_or_xt_json(x))),
    }
}

/// Accept one xtriggers table entry: a bare string, a single record
/// object, or an array of strings and record objects.
#[verifier::loop_isolation(false)]
pub fn decode_xt_entry(v: &JsonValue) -> (r: Result<
    StringMapOrArray<StringOrStruct<ElementsXTriggers>>,
    DataError,
>)
    ensures
        match spec_xt_entry(v.deep()) {
            Ok(w) => r matches Ok(x) && x@ == w,
            Err(e) => r == Err::<StringMapOrArray<StringOrStruct<ElementsXTriggers>>, DataError>(
                e,
            ),
        },
{
    match v {
        JsonValue::Str(t) => Ok(StringMapOrArray::Str(t.clone())),
        JsonValue::Obj(..) => match decode_string_or_xt(v) {
            Ok(x) => Ok(StringMapOrArray::One(x)),
            Err(e) => Err(e),
        },
        JsonValue::Arr(elems) => {
            let ghost dvs = deep_elems(elems@);
            proof {
                lemma_deep_elems(elems@);
            }
            let mut out: Vec<StringOrStruct<ElementsXTriggers>> = Vec::new();
            let n = elems.len();
            let mut k: usize = 0;
            proof {
                assert(dvs.take(0) =~= Seq::<JsonV>::empty());
                assert(Seq::new(out@.len(), |i: int| out@[i]@) =~= Seq::<StringOrXtV>::empty());
            }
            while k < n
                invariant
                    k <= n,
                    out@.len() == k,
                    spec_xt_elems(dvs.take(k as int)) == Ok::<Seq<StringOrXtV>, DataError>(
                        Seq::new(out@.len(), |i: int| out@[i]@),
                    ),
                decreases n - k,
            {
                match decode_string_or_xt(&elems[k]) {
                    Ok(x) => {
                        let ghost prev = out@;
                        out.push(x);
                        proof {
                            assert(dvs.take(k as int + 1).drop_last() =~= dvs.take(k as int));
                            assert(dvs.take(k as int + 1).last() == dvs[k as int]);
                            assert(Seq::new(out@.len(), |i: int| out@[i]@) =~= Seq::new(
                                prev.len(),
                                |i: int| prev[i]@,
                            ).push(x@));
                        }
                    },
                    Err(e) => {
                        proof {
                            assert(dvs.take(k as int + 1).drop_last() =~= dvs.take(k as int));
                            assert(dvs.take(k as int + 1).last() == dvs[k as int]);
                            assert(spec_xt_elems(dvs.take(k as int + 1)) == Err::<
                                Seq<StringOrXtV>,
                                DataError,
                            >(e));
                            lemma_xt_elems_extend_err(dvs, k as int + 1);
                        }
                        return Err(e);
                    },
                }
                k = k + 1;
            }
            proof {
                assert(dvs.take(n as int) =~= dvs);
            }
            Ok(StringMapOrArray::Arr(out))
        },
        _ => Err(DataError::BadValue(CoerceError::WrongShape)),
    }
}

/// Write a table entry back in the shape it was given in.
#[verifier::loop_isolation(false)]
pub fn encode_xt_entry(w: &StringMapOrArray<StringOrStruct<ElementsXTriggers>>) -> (r: JsonValue)
    ensures
        r.deep() == spec_xt_entry_json(w@),
{
    match w {
        StringMapOrArray::Str(t) => JsonValue::Str(t.clone()),
        StringMapOrArray::One(x) => encode_string_or_xt(x),
        StringMapOrArray::Arr(vs) => {
            let mut out: Vec<JsonValue> = Vec::new();
            let n = vs.len();
            let mut k: usize = 0;
            while k < n
                invariant
                    k <= n,
                    out@.len() == k,
                    forall|i: int|
                        0 <= i < k ==> (#[trigger] out@[i]).deep() == spec_string_or_xt_json(
                            vs@[i]@,
                        ),
                decreases n - k,
            {
                out.push(encode_string_or_xt(&vs[k]));
                k = k + 1;
            }
            let r = JsonValue::Arr(out);
            proof {
                lemma_deep_elems(out@);
                assert(deep_elems(out@) =~= Seq::new(vs@.len(), |i: int| vs@[i]@).map_values(
                    |x: StringOrXtV| spec_string_or_xt_json(x),
                ));
            }
            r
        },
    }
}

/// Model of a `RecipesMutations` record.
pub struct RecipesMutationsV {
    pub additive: bool,
    pub filter: Seq<char>,
    pub level: crate::coerce::StringOrI32V,
    pub mutate: Seq<char>,
}

impl View for RecipesMutations {
    type V = RecipesMutationsV;

    open spec fn view(&self) -> RecipesMutationsV {
        RecipesMutationsV {
            additive: self.additive,
            filter: self.filter@,
            level: self.level@,
            mutate: self.mutate@,
        }
    }
}

/// The fields of a `RecipesMutations` record as they are read.
pub struct MutFields {
    pub additive: Option<bool>,
    pub filter: Option<Seq<char>>,
    pub level: Option<crate::coerce::StringOrI32V>,
    pub mutate: Option<Seq<char>>,
}

/// The state before any key is read.
pub open spec fn spec_mut_init() -> MutFields {
    MutFields { additive: None, filter: None, level: None, mutate: None }
}

/// Read one key of a `RecipesMutations` record: `additive` accepts a
/// boolean or its string spelling, `level` a string or an integer, the
/// rest are strings; each key must be declared and fresh.
pub open spec fn spec_mut_step(st: MutFields, key: Seq<char>, v: JsonV) -> Result<
    MutFields,
    DataError,
> {
    if key == "additive"@ {
        if st.additive is Some {
            Err(DataError::DuplicateField)
        } else {
            match crate::coerce::spec_parse_bool(v) {
                Ok(b) => Ok(MutFields { additive: Some(b), ..st }),
                Err(e) => Err(DataError::BadValue(e)),
            }
        }
    } else if key == "filter"@ {
        if st.filter is Some {
            Err(DataError::DuplicateField)
        } else {
            match v {
                JsonV::Str(t) => Ok(MutFields { filter: Some(t), ..st }),
                _ => Err(DataError::BadValue(CoerceError::WrongShape)),
            }
        }
    } else if key == "level"@ {
        if st.level is Some {
            Err(DataError::DuplicateField)
        } else {
            match crate::coerce::spec_string_or_i32(v) {
                Ok(w) => Ok(MutFields { level: Some(w), ..st }),
                Err(e) => Err(DataError::BadValue(e)),
            }
        }
    } else if key == "mutate"@ {
        if st.mutate is Some {
            Err(DataError::DuplicateField)
        } else {
            match v {
                JsonV::Str(t) => Ok(MutFields { mutate: Some(t), ..st }),
                _ => Err(DataError::BadValue(CoerceError::WrongShape)),
            }
        }
    } else {
        Err(DataError::UnknownField)
    }
}

/// Read the keys of a `RecipesMutations` object from `i` on.
pub open spec fn spec_mut_fold(fs: Seq<(Seq<char>, JsonV)>, i: int, st: MutFields) -> Result<
    MutFields,
    DataError,
>
    decreases fs.len() - i,
{
    if i < 0 || i >= fs.len() {
        Ok(st)
    } else {
        match spec_mut_step(st, fs[i].0, fs[i].1) {
            Ok(st2) => spec_mut_fold(fs, i + 1, st2),
            Err(e) => Err(e),
        }
    }
}

/// Which `RecipesMutations` record an object decodes to: `filter`, `level`
/// and `mutate` required, `additive` defaulting to false, unknown keys
/// rejected.
pub open spec fn spec_mut_decode(v: JsonV) -> Result<RecipesMutationsV, DataError> {
    match v {
        JsonV::Obj(fs) => match spec_mut_fold(fs, 0, spec_mut_init()) {
            Err(e) => Err(e),
            Ok(st) => match (st.filter, st.level, st.mutate) {
                (Some(filter), Some(level), Some(mutate)) => Ok(
                    RecipesMutationsV {
                        additive: match st.additive {
                            None => false,
                            Some(b) => b,
                        },
                        filter,
                        level,
                        mutate,
                    },
                ),
                _ => Err(DataError::MissingField),
            },
        },
        _ => Err(DataError::BadValue(CoerceError::WrongShape)),
    }
}

impl RecipesMutations {
    /// Decode one record from an object: keys in any order, each at most
    /// once, unknown keys rejected; `filter`, `level` and `mutate`
    /// required; `additive` accepts a boolean or its string spelling and
    /// defaults to false.
    #[verifier::loop_isolation(false)]
    pub fn decode(v: &JsonValue) -> (r: Result<RecipesMutations, DataError>)
        ensures
            match spec_mut_decode(v.deep()) {
                Ok(w) => r matches Ok(x) && x@ == w,
                Err(e) => r == Err::<RecipesMutations, DataError>(e),
            },
    {
        let fields = match v {
            JsonValue::Obj(fields) => fields,
            _ => {
                return Err(DataError::BadValue(CoerceError::WrongShape));
            },
        };
        let ghost dfs = deep_fields(fields@);
        proof {
            lemma_deep_fields(fields@);
        }
        let key_additive = String::from_str("additive");
        let key_filter = String::from_str("filter");
        let key_level = String::from_str("level");
        let key_mutate = String::from_str("mutate");
        let mut additive: Option<bool> = None;
        let mut filter: Option<String> = None;
        let mut level: Option<StringOrI32> = None;
        let mut mutate: Option<String> = None;
        let ghost mut st = spec_mut_init();
        let n = fields.len();
        let mut k: usize = 0;
        while k < n
            invariant
                k <= n,
                spec_mut_fold(dfs, 0, spec_mut_init()) == spec_mut_fold(dfs, k as int, st),
                st.additive == additive,
                match (st.filter, &filter) {
                    (None, None) => true,
                    (Some(w), Some(s)) => w == s@,
                    _ => false,
                },
                match (st.level, &level) {
                    (None, None) => true,
                    (Some(w), Some(x)) => w == x@,
                    _ => false,
                },
                match (st.mutate, &mutate) {
                    (None, None) => true,
                    (Some(w), Some(s)) => w == s@,
                    _ => false,
                },
            decreases n - k,
        {
            let entry = &fields[k];
            let ghost key = dfs[k as int].0;
            let ghost val = dfs[k as int].1;
            if entry.0 == key_additive {
                if additive.is_some() {
                    return Err(DataError::DuplicateField);
                }
                match crate::coerce::parse_bool(&entry.1) {
                    Ok(b) => {
                        additive = Some(b);
                    },
                    Err(e) => {
                        return Err(DataError::BadValue(e));
                    },
                }
            } else if entry.0 == key_filter {
                if filter.is_some() {
                    return Err(DataError::DuplicateField);
                }
                match &entry.1 {
                    JsonValue::Str(t) => {
                        filter = Some(t.clone());
                    },
                    _ => {
                        return Err(DataError::BadValue(CoerceError::WrongShape));
                    },
                }
            } else if entry.0 == key_level {
                if level.is_some() {
                    return Err(DataError::DuplicateField);
                }
                match StringOrI32::decode(&entry.1) {
                    Ok(x) => {
                        level = Some(x);
                    },
                    Err(e) => {
                        return Err(DataError::BadValue(e));
                    },
                }
            } else if entry.0 == key_mutate {
                if mutate.is_some() {
                    return Err(DataError::DuplicateField);
                }
                match &entry.1 {
                    JsonValue::Str(t) => {
                        mutate = Some(t.clone());
                    },
                    _ => {
                        return Err(DataError::BadValue(CoerceError::WrongShape));
                    },
                }
            } else {
                return Err(DataError::UnknownField);
            }
            proof {
                st = spec_mut_step(st, key, val)->Ok_0;
            }
            k = k + 1;
        }
        match (filter, level, mutate) {
            (Some(filter), Some(level), Some(mutate)) => Ok(
                RecipesMutations {
                    additive: match additive {
                        None => false,
                        Some(b) => b,
                    },
                    filter,
                    level,
                    mutate,
                },
            ),
            _ => Err(DataError::MissingField),
        }
    }
}

} // verus!
