use vstd::prelude::*;

use crate::character::{all_attributes, determine_class, get_all_attributes, Attribute, AttributeScore, Character, CharacterDetails, Class};
use crate::command::ViewMode;
use crate::input::Key;

verus! {

/// The class that `determine_class` names for a selection.
pub open spec fn class_named(name: Seq<char>) -> Option<Class> {
    if name == "None"@ {
        Some(Class::NoClass)
    } else if name == "Warrior"@ {
        Some(Class::Warrior)
    } else {
        None
    }
}

/// The first input value given for an attribute among `inputs[i]`, `inputs[i + 1]`, ...
pub open spec fn first_input(inputs: Seq<(Attribute, i32)>, a: Attribute, i: int) -> Option<i32>
    decreases inputs.len() - i,
{
    if i < 0 || i >= inputs.len() {
        None
    } else if inputs[i].0 == a {
        Some(inputs[i].1)
    } else {
        first_input(inputs, a, i + 1)
    }
}

/// The index of the first score of an attribute among `scores[i]`, `scores[i + 1]`, ...
pub open spec fn first_score(scores: Seq<AttributeScore>, a: Attribute, i: int) -> Option<int>
    decreases scores.len() - i,
{
    if i < 0 || i >= scores.len() {
        None
    } else if scores[i].attribute == a {
        Some(i)
    } else {
        first_score(scores, a, i + 1)
    }
}

/// The score at index `j` once the inputs are applied: the first score of each attribute takes
/// the first input given for that attribute, cut to an `i8` as `as` does.
pub open spec fn updated_score(scores: Seq<AttributeScore>, inputs: Seq<(Attribute, i32)>, j: int) -> AttributeScore {
    let a = scores[j].attribute;
    match first_input(inputs, a, 0) {
        Some(v) => if first_score(scores, a, 0) == Some(j) {
            AttributeScore { attribute: a, score: v as i8 }
        } else {
            scores[j]
        },
        None => scores[j],
    }
}

/// The scores once the inputs are applied (see `updated_score`).
pub open spec fn updated_scores(scores: Seq<AttributeScore>, inputs: Seq<(Attribute, i32)>) -> Seq<AttributeScore> {
    Seq::new(scores.len(), |j: int| updated_score(scores, inputs, j))
}

proof fn lemma_first_score(scores: Seq<AttributeScore>, a: Attribute, i: int)
    requires
        0 <= i,
    ensures
        match first_score(scores, a, i) {
            Some(k) => i <= k < scores.len() && scores[k].attribute == a
                && forall|m: int| i <= m < k ==> #[trigger] scores[m].attribute != a,
            None => forall|m: int| i <= m < scores.len() ==> #[trigger] scores[m].attribute != a,
        },
    decreases scores.len() - i,
{
    if i < scores.len() && scores[i].attribute != a {
        lemma_first_score(scores, a, i + 1);
    }
}

proof fn lemma_first_input(inputs: Seq<(Attribute, i32)>, a: Attribute, i: int)
    requires
        0 <= i,
    ensures
        match first_input(inputs, a, i) {
            Some(v) => exists|k: int| i <= k < inputs.len() && inputs[k].0 == a && inputs[k].1 == v
                && forall|m: int| i <= m < k ==> #[trigger] inputs[m].0 != a,
            None => forall|m: int| i <= m < inputs.len() ==> #[trigger] inputs[m].0 != a,
        },
    decreases inputs.len() - i,
{
    if i < inputs.len() && inputs[i].0 != a {
        lemma_first_input(inputs, a, i + 1);
    }
}

proof fn lemma_first_score_same(s1: Seq<AttributeScore>, s2: Seq<AttributeScore>, a: Attribute, i: int)
    requires
        s1.len() == s2.len(),
        forall|m: int| 0 <= m < s2.len() ==> #[trigger] s1[m].attribute == s2[m].attribute,
    ensures
        first_score(s1, a, i) == first_score(s2, a, i),
    decreases s1.len() - i,
{
    if 0 <= i < s1.len() {
        assert(s1[i].attribute == s2[i].attribute);
        lemma_first_score_same(s1, s2, a, i + 1);
    }
}

/// The first input value given for an attribute.
fn find_input(inputs: &Vec<(Attribute, i32)>, a: Attribute) -> (r: Option<i32>)
    ensures
        r == first_input(inputs@, a, 0),
{
    let mut k: usize = 0;
    while k < inputs.len()
        invariant
            k <= inputs@.len(),
            first_input(inputs@, a, 0) == first_input(inputs@, a, k as int),
        decreases inputs@.len() - k,
    {
        if inputs[k].0 == a {
            return Some(inputs[k].1);
        }
        k += 1;
    }
    None
}

/// The index of the first score of an attribute.
fn find_score(scores: &Vec<AttributeScore>, a: Attribute) -> (r: Option<usize>)
    ensures
        match r {
            Some(k) => first_score(scores@, a, 0) == Some(k as int),
            None => first_score(scores@, a, 0) is None,
        },
{
    let mut k: usize = 0;
    while k < scores.len()
        invariant
            k <= scores@.len(),
            first_score(scores@, a, 0) == first_score(scores@, a, k as int),
        decreases scores@.len() - k,
    {
        if scores[k].attribute == a {
            return Some(k);
        }
        k += 1;
    }
    None
}

/// Applies what the character view's inputs hold to a character: the name and the class, when
/// given (a class selection that names no class is ignored), and for each attribute in turn
/// the first input given for it, to the first score of that attribute.
pub fn apply_creation_inputs(c: Character, name: Option<String>, class: Option<String>, scores: Vec<(Attribute, i32)>) -> (r: Character)
    ensures
        r.name == match name {
            Some(n) => n,
            None => c.name,
        },
        r.character_details.class == match class {
            Some(s) => match class_named(s@) {
                Some(k) => k,
                None => c.character_details.class,
            },
            None => c.character_details.class,
        },
        r.character_details.attributes@ == updated_scores(c.character_details.attributes@, scores@),
        r.character_details.race == c.character_details.race,
        r.character_details.level == c.character_details.level,
        r.character_details.max_free_attribute_points == c.character_details.max_free_attribute_points,
        r.character_details.free_attribute_points == c.character_details.free_attribute_points,
        r.health == c.health,
        r.colour == c.colour,
        r.position == c.position,
        r.inventory == c.inventory,
        r.equipment == c.equipment,
{
    let ghost orig = c.character_details.attributes@;
    let mut character = c;
    match name {
        Some(n) => {
            character.name = n;
        },
        None => {},
    }
    match class {
        Some(s) => match determine_class(s) {
            Some(k) => {
                character.character_details.class = k;
            },
            None => {},
        },
        None => {},
    }
    let all = get_all_attributes();
    let mut i: usize = 0;
    while i < all.len()
        invariant
            all@ == all_attributes(),
            i <= all@.len(),
            character.character_details.attributes@.len() == orig.len(),
            forall|j: int| 0 <= j < orig.len() ==> #[trigger] character.character_details.attributes@[j] == if exists|t: int| 0 <= t < i && all@[t] == orig[j].attribute {
                updated_score(orig, scores@, j)
            } else {
                orig[j]
            },
            character.name == (match name { Some(n) => n, None => c.name }),
            character.character_details.class == (match class {
                Some(s) => match class_named(s@) {
                    Some(k) => k,
                    None => c.character_details.class,
                },
                None => c.character_details.class,
            }),
            character.character_details.race == c.character_details.race,
            character.character_details.level == c.character_details.level,
            character.character_details.max_free_attribute_points == c.character_details.max_free_attribute_points,
            character.character_details.free_attribute_points == c.character_details.free_attribute_points,
            character.health == c.health,
            character.colour == c.colour,
            character.position == c.position,
            character.inventory == c.inventory,
            character.equipment == c.equipment,
        decreases all@.len() - i,
    {
        let a = all[i];
        let found = find_input(&scores, a);
        let ghost before = character.character_details.attributes@;
        proof {
            lemma_first_score(orig, a, 0);
            assert forall|t: int| 0 <= t < i implies all@[t] != a by {
                assert(all@[t] != all@[i as int]);
            }
        }
        match found {
            Some(v) => {
                proof {
                    assert forall|m: int| 0 <= m < orig.len() implies #[trigger] before[m].attribute == orig[m].attribute by {}
                    lemma_first_score_same(before, orig, a, 0);
                }
                let jopt = find_score(&character.character_details.attributes, a);
                proof {
                    assert(character.character_details.attributes@ == before);
                    lemma_first_score(before, a, 0);
                }
                match jopt {
                    Some(j) => {
                        proof {
                            assert(first_score(before, a, 0) == Some(j as int));
                        }
                        character.character_details.attributes.set(j, AttributeScore { attribute: a, score: v as i8 });
                        proof {
                            lemma_first_score(orig, a, 0);
                            assert(first_score(before, a, 0) == first_score(orig, a, 0));
                            assert(first_score(orig, a, 0) == Some(j as int));
                            assert(character.character_details.attributes@ == before.update(j as int, AttributeScore { attribute: a, score: v as i8 }));
                        }
                    },
                    None => {
                        proof {
                            assert(first_score(orig, a, 0) is None);
                        }
                    },
                }
            },
            None => {},
        }
        proof {
            let after = character.character_details.attributes@;
            let fi = first_input(scores@, a, 0);
            let fs = first_score(orig, a, 0);
            assert(found == fi);
            assert(after == if fi is Some && fs is Some {
                before.update(fs->0, AttributeScore { attribute: a, score: fi->0 as i8 })
            } else {
                before
            });
        }
        proof {
            assert forall|m: int| 0 <= m < orig.len() implies #[trigger] character.character_details.attributes@[m] == if exists|t: int| 0 <= t < i + 1 && all@[t] == orig[m].attribute {
                updated_score(orig, scores@, m)
            } else {
                orig[m]
            } by {
                if orig[m].attribute == a {
                    assert(all@[i as int] == orig[m].attribute);
                    assert(!exists|t: int| 0 <= t < i && all@[t] == orig[m].attribute);
                    assert(before[m] == orig[m]);
                } else {
                    if exists|t: int| 0 <= t < i + 1 && all@[t] == orig[m].attribute {
                        let t = choose|t: int| 0 <= t < i + 1 && all@[t] == orig[m].attribute;
                        assert(t != i);
                    }
                }
            }
        }
        i += 1;
    }
    proof {
        assert forall|j: int| 0 <= j < orig.len() implies #[trigger] character.character_details.attributes@[j] == updated_score(orig, scores@, j) by {
            let a = orig[j].attribute;
            assert(all_attributes().contains(a)) by {
                match a {
                    Attribute::Strength => assert(all_attributes()[0] == a),
                    Attribute::Health => assert(all_attributes()[1] == a),
                    Attribute::Agility => assert(all_attributes()[2] == a),
                    Attribute::Intelligence => assert(all_attributes()[3] == a),
                    Attribute::Stealth => assert(all_attributes()[4] == a),
                }
            }
        }
        assert(character.character_details.attributes@ =~= updated_scores(orig, scores@));
    }
    character
}

/// The sum of the scores.
pub open spec fn score_sum(s: Seq<AttributeScore>) -> int
    decreases s.len(),
{
    if s.len() == 0 { 0 } else { score_sum(s.drop_last()) + s.last().score }
}

proof fn lemma_score_sum_update(s: Seq<AttributeScore>, i: int, x: AttributeScore)
    requires
        0 <= i < s.len(),
    ensures
        score_sum(s.update(i, x)) == score_sum(s) - s[i].score + x.score,
    decreases s.len(),
{
    if i < s.len() - 1 {
        lemma_score_sum_update(s.drop_last(), i, x);
        assert(s.update(i, x).drop_last() =~= s.drop_last().update(i, x));
    } else {
        assert(s.update(i, x).drop_last() =~= s.drop_last());
    }
}

/// Whether a right arrow moves a free point into the selected score.
pub open spec fn can_raise(details: CharacterDetails, scores: Seq<AttributeScore>, selected: Option<usize>) -> bool {
    selected matches Some(i) && i < scores.len() && details.free_attribute_points > 0 && scores[i as int].score < i8::MAX
}

/// Whether a left arrow moves a point of the selected score back to the free points.
pub open spec fn can_lower(details: CharacterDetails, scores: Seq<AttributeScore>, selected: Option<usize>) -> bool {
    selected matches Some(i) && i < scores.len() && details.free_attribute_points < details.max_free_attribute_points
        && scores[i as int].score > i8::MIN
}

/// Reacts to one key of character creation, with the attribute score `selected` (if any) on
/// focus: `q` finishes; the right arrow moves one free point into the selected score while free
/// points are left; the left arrow moves one point of the selected score back while the free
/// points are below their maximum. A score at the end of the `i8` range stays. Other keys
/// change nothing.
pub fn creation_input_step(details: &mut CharacterDetails, scores: &mut Vec<AttributeScore>, selected: Option<usize>, key: Key) -> (done: bool)
    ensures
        done == (key == Key::Char('q')),
        final(details).race == old(details).race,
        final(details).class == old(details).class,
        final(details).level == old(details).level,
        final(details).max_free_attribute_points == old(details).max_free_attribute_points,
        final(details).attributes@ == old(details).attributes@,
        key == Key::Right && can_raise(*old(details), old(scores)@, selected) ==> {
            let i = selected->0 as int;
            &&& final(details).free_attribute_points == old(details).free_attribute_points - 1
            &&& final(scores)@ == old(scores)@.update(i, AttributeScore { score: (old(scores)@[i].score + 1) as i8, ..old(scores)@[i] })
        },
        key == Key::Left && can_lower(*old(details), old(scores)@, selected) ==> {
            let i = selected->0 as int;
            &&& final(details).free_attribute_points == old(details).free_attribute_points + 1
            &&& final(scores)@ == old(scores)@.update(i, AttributeScore { score: (old(scores)@[i].score - 1) as i8, ..old(scores)@[i] })
        },
        !(key == Key::Right && can_raise(*old(details), old(scores)@, selected))
            && !(key == Key::Left && can_lower(*old(details), old(scores)@, selected)) ==> {
            &&& final(details).free_attribute_points == old(details).free_attribute_points
            &&& final(scores)@ == old(scores)@
        },
        0 <= old(details).free_attribute_points <= old(details).max_free_attribute_points
            ==> 0 <= final(details).free_attribute_points <= final(details).max_free_attribute_points,
        final(details).free_attribute_points + score_sum(final(scores)@)
            == old(details).free_attribute_points + score_sum(old(scores)@),
{
    match key {
        Key::Char('q') => true,
        Key::Right => {
            if let Some(i) = selected {
                if i < scores.len() && details.free_attribute_points > 0 && scores[i].score < i8::MAX {
                    let s = scores[i];
                    proof {
                        lemma_score_sum_update(scores@, i as int, AttributeScore { attribute: s.attribute, score: (s.score + 1) as i8 });
                    }
                    scores.set(i, AttributeScore { attribute: s.attribute, score: s.score + 1 });
                    details.free_attribute_points = details.free_attribute_points - 1;
                }
            }
            false
        },
        Key::Left => {
            if let Some(i) = selected {
                if i < scores.len() && details.free_attribute_points < details.max_free_attribute_points
                    && scores[i].score > i8::MIN {
                    let s = scores[i];
                    proof {
                        lemma_score_sum_update(scores@, i as int, AttributeScore { attribute: s.attribute, score: (s.score - 1) as i8 });
                    }
                    scores.set(i, AttributeScore { attribute: s.attribute, score: s.score - 1 });
                    details.free_attribute_points = details.free_attribute_points + 1;
                }
            }
            false
        },
        _ => false,
    }
}

/// Which of the character view's input widgets has focus, among how many, and whether the view
/// creates a character or shows one.
pub struct CharacterViewFrameHandler {
    pub selected_widget: Option<i8>,
    pub widget_count: usize,
    pub view_mode: ViewMode,
}

impl CharacterViewFrameHandler {
    /// Moves the focus to the widget before, unless the first (or no listed widget) has it.
    pub fn previous_widget(&mut self)
        requires
            old(self).selected_widget is Some,
            old(self).widget_count <= i8::MAX,
        ensures
            final(self).widget_count == old(self).widget_count,
            final(self).view_mode == old(self).view_mode,
            final(self).selected_widget == ({
                let s = old(self).selected_widget->0;
                if 0 < s && s < old(self).widget_count { Some((s - 1) as i8) } else { Some(s) }
            }),
    {
        let selected_widget = self.selected_widget.unwrap();
        if selected_widget > 0 && selected_widget < self.widget_count as i8 {
            self.selected_widget = Some(selected_widget - 1);
        }
    }

    /// Moves the focus to the widget after, unless the last (or no listed widget) has it.
    pub fn next_widget(&mut self)
        requires
            old(self).selected_widget is Some,
            old(self).widget_count <= i8::MAX,
        ensures
            final(self).widget_count == old(self).widget_count,
            final(self).view_mode == old(self).view_mode,
            final(self).selected_widget == ({
                let s = old(self).selected_widget->0;
                if 0 <= s && s < old(self).widget_count - 1 { Some((s + 1) as i8) } else { Some(s) }
            }),
    {
        let selected_widget = self.selected_widget.unwrap();
        if selected_widget >= 0 && selected_widget < self.widget_count as i8 - 1 {
            self.selected_widget = Some(selected_widget + 1);
        }
    }
}

} // verus!
