//! Conditions on a single event.

use crate::event::{Event, EventView};
use crate::number::{number_zero, zero, Number};
use crate::text::{
    debug_quoted, debug_text, is_space, law_white_space_parts_the_words, same, split_whitespace,
    trim, trimmed, words, Class,
};
use vstd::prelude::*;

verus! {

/// A condition that an event must satisfy, say to match a pattern step.
pub trait EventCondition {
    /// Whether an event satisfies the condition, which is up to each kind of condition.
    open spec fn holds(&self, event: EventView) -> bool {
        arbitrary()
    }

    /// Whether an event satisfies the condition.
    fn matches(&self, event: &Event) -> (r: bool)
        ensures
            r == self.holds(event@),
    ;
}

/// How a speed is held against a threshold.
#[derive(Clone, Copy, PartialEq, Eq, Structural, Debug)]
pub enum SpeedTest {
    Above,
    AtLeast,
    Below,
    AtMost,
    Equal,
    NotEqual,
    /// An operator that is none of the six: no speed passes.
    Never,
}

impl SpeedTest {
    /// The test an operator stands for.
    pub open spec fn named(op: Seq<char>) -> SpeedTest {
        if op == ">"@ {
            SpeedTest::Above
        } else if op == ">="@ {
            SpeedTest::AtLeast
        } else if op == "<"@ {
            SpeedTest::Below
        } else if op == "<="@ {
            SpeedTest::AtMost
        } else if op == "=="@ {
            SpeedTest::Equal
        } else if op == "!="@ {
            SpeedTest::NotEqual
        } else {
            SpeedTest::Never
        }
    }

    /// Whether a speed passes.
    pub open spec fn passes(self, speed: Number, threshold: Number) -> bool {
        match self {
            SpeedTest::Above => threshold.below(speed),
            SpeedTest::AtLeast => threshold.below(speed) || threshold.equals(speed),
            SpeedTest::Below => speed.below(threshold),
            SpeedTest::AtMost => speed.below(threshold) || speed.equals(threshold),
            SpeedTest::Equal => speed.equals(threshold),
            SpeedTest::NotEqual => !speed.equals(threshold),
            SpeedTest::Never => false,
        }
    }

    fn of(op: &str) -> (r: SpeedTest)
        ensures
            r == SpeedTest::named(op@),
    {
        if same(op, ">") {
            SpeedTest::Above
        } else if same(op, ">=") {
            SpeedTest::AtLeast
        } else if same(op, "<") {
            SpeedTest::Below
        } else if same(op, "<=") {
            SpeedTest::AtMost
        } else if same(op, "==") {
            SpeedTest::Equal
        } else if same(op, "!=") {
            SpeedTest::NotEqual
        } else {
            SpeedTest::Never
        }
    }

    fn test(self, speed: Number, threshold: Number) -> (r: bool)
        ensures
            r == self.passes(speed, threshold),
    {
        match self {
            SpeedTest::Above => threshold.lt(speed),
            SpeedTest::AtLeast => threshold.le(speed),
            SpeedTest::Below => speed.lt(threshold),
            SpeedTest::AtMost => speed.le(threshold),
            SpeedTest::Equal => speed.eq_number(threshold),
            SpeedTest::NotEqual => !speed.eq_number(threshold),
            SpeedTest::Never => false,
        }
    }
}

/// A compiled condition.
#[derive(Debug)]
pub enum Condition {
    Speed { test: SpeedTest, threshold: Number },
    EntityId { wanted: String, negate: bool },
}

/// What a compiled condition says.
pub enum ConditionView {
    Speed { test: SpeedTest, threshold: Number },
    EntityId { wanted: Seq<char>, negate: bool },
}

impl View for Condition {
    type V = ConditionView;

    open spec fn view(&self) -> ConditionView {
        match self {
            Condition::Speed { test, threshold } => ConditionView::Speed {
                test: *test,
                threshold: *threshold,
            },
            Condition::EntityId { wanted, negate } => ConditionView::EntityId {
                wanted: wanted@,
                negate: *negate,
            },
        }
    }
}

impl ConditionView {
    /// Whether an event satisfies the condition. An event without a speed reading is
    /// treated as stopped.
    pub open spec fn admits(self, event: EventView) -> bool {
        match self {
            ConditionView::Speed { test, threshold } => test.passes(
                match event.speed {
                    Some(speed) => speed,
                    None => zero(),
                },
                threshold,
            ),
            ConditionView::EntityId { wanted, negate } => (event.entity_id == wanted) != negate,
        }
    }
}

impl EventCondition for Condition {
    open spec fn holds(&self, event: EventView) -> bool {
        self@.admits(event)
    }

    fn matches(&self, event: &Event) -> (r: bool) {
        match self {
            Condition::Speed { test, threshold } => {
                let speed = match event.speed {
                    Some(speed) => speed,
                    None => number_zero(),
                };
                test.test(speed, *threshold)
            },
            Condition::EntityId { wanted, negate } => same(
                event.entity_id.as_str(),
                wanted.as_str(),
            ) != *negate,
        }
    }
}

/// What compiling gives: the condition, or the message that refuses it.
pub type Compiled = Result<ConditionView, Seq<char>>;

/// The text that must be read as a number before a condition can be compiled: the last of
/// the three words of a speed comparison.
pub open spec fn threshold_of(condition: Seq<char>) -> Option<Seq<char>> {
    if words(condition).len() == 3 && words(condition)[0] == "speed"@ {
        Some(words(condition)[2])
    } else {
        None
    }
}

/// What a condition compiles to, given what its threshold reads as.
pub open spec fn compiled(condition: Seq<char>, threshold: Option<Number>) -> Compiled {
    let tokens = words(condition);
    if tokens.len() != 3 {
        Err("unsupported filter condition: "@ + debug_text(condition))
    } else if tokens[0] == "speed"@ {
        match threshold {
            Some(number) => Ok(
                ConditionView::Speed { test: SpeedTest::named(tokens[1]), threshold: number },
            ),
            None => Err("invalid speed value in condition: "@ + debug_text(condition)),
        }
    } else if tokens[0] == "entity_id"@ {
        let wanted = trimmed(tokens[2], Class::Quote);
        if tokens[1] == "=="@ {
            Ok(ConditionView::EntityId { wanted, negate: false })
        } else if tokens[1] == "!="@ {
            Ok(ConditionView::EntityId { wanted, negate: true })
        } else {
            Err("unsupported operator for entity_id: "@ + debug_text(tokens[1]))
        }
    } else {
        Err("unsupported filter field: "@ + debug_text(tokens[0]))
    }
}

/// What a result holds.
pub open spec fn compiled_view(r: Result<Condition, String>) -> Compiled {
    match r {
        Ok(condition) => Ok(condition@),
        Err(message) => Err(message@),
    }
}

/// A message that quotes a text.
pub fn quoting(message: &str, text: &str) -> (r: String)
    ensures
        r@ == message@ + debug_text(text@),
{
    let mut out = message.to_string();
    out.append(debug_quoted(text).as_str());
    out
}

/// The text that must be read as a number before the condition can be compiled, if there
/// is one.
pub fn threshold_text(condition: &str) -> (r: Option<String>)
    ensures
        match r {
            Some(text) => threshold_of(condition@) == Some(text@),
            None => threshold_of(condition@) is None,
        },
{
    let tokens = split_whitespace(condition);
    if tokens.len() == 3 && same(tokens[0].as_str(), "speed") {
        Some(tokens[2].clone())
    } else {
        None
    }
}

/// Compile a simple filter condition. Supports `speed <op> <number>` and
/// `entity_id ==|!= '<value>'`. `threshold` is what `threshold_text` reads as, and nothing
/// where it is no number.
pub fn compile_condition(condition: &str, threshold: Option<Number>) -> (r: Result<
    Condition,
    String,
>)
    ensures
        compiled_view(r) == compiled(condition@, threshold),
{
    let tokens = split_whitespace(condition);
    if tokens.len() != 3 {
        return Err(quoting("unsupported filter condition: ", condition));
    }
    let field = tokens[0].as_str();
    let op = tokens[1].as_str();
    let value = tokens[2].as_str();
    if same(field, "speed") {
        match threshold {
            Some(number) => Ok(Condition::Speed { test: SpeedTest::of(op), threshold: number }),
            None => Err(quoting("invalid speed value in condition: ", condition)),
        }
    } else if same(field, "entity_id") {
        let wanted = trim(value, Class::Quote);
        if same(op, "==") {
            Ok(Condition::EntityId { wanted, negate: false })
        } else if same(op, "!=") {
            Ok(Condition::EntityId { wanted, negate: true })
        } else {
            Err(quoting("unsupported operator for entity_id: ", op))
        }
    } else {
        Err(quoting("unsupported filter field: ", field))
    }
}

/// A condition compiles exactly when it is one comparison of three words: a speed with a
/// number, or an entity with a name by `==` or `!=`.
pub proof fn law_a_condition_is_one_comparison(condition: Seq<char>, threshold: Option<Number>)
    ensures
        compiled(condition, threshold) is Ok <==> words(condition).len() == 3 && ((words(
            condition,
        )[0] == "speed"@ && threshold is Some) || (words(condition)[0] == "entity_id"@ && (words(
            condition,
        )[1] == "=="@ || words(condition)[1] == "!="@))),
{
    reveal_strlit("speed");
    reveal_strlit("entity_id");
    assert("speed"@.len() == 5 && "entity_id"@.len() == 9);
}

/// An `entity_id !=` condition holds for exactly the events for which the `==` condition
/// on the same value does not.
pub proof fn law_not_equal_negates_equal(wanted: Seq<char>, event: EventView)
    ensures
        (ConditionView::EntityId { wanted, negate: true }).admits(event) == !(
        ConditionView::EntityId { wanted, negate: false }).admits(event),
{
}

/// A name in quotes of either style names the same entity, where it neither begins nor ends
/// with a quote itself.
pub proof fn law_either_quote_style_names_the_same_entity(name: Seq<char>)
    requires
        name.len() > 0 ==> !Class::Quote.has(name[0]) && !Class::Quote.has(name.last()),
    ensures
        trimmed(seq!['\''] + name + seq!['\''], Class::Quote) == name,
        trimmed(seq!['"'] + name + seq!['"'], Class::Quote) == name,
{
    lemma_quoted_name(name, '\'');
    lemma_quoted_name(name, '"');
}

proof fn lemma_quoted_name(name: Seq<char>, quote: char)
    requires
        Class::Quote.has(quote),
        name.len() > 0 ==> !Class::Quote.has(name[0]) && !Class::Quote.has(name.last()),
    ensures
        trimmed(seq![quote] + name + seq![quote], Class::Quote) == name,
{
    let whole = seq![quote] + name + seq![quote];
    let n = whole.len() as int;
    reveal_with_fuel(crate::text::skip_class, 3);
    reveal_with_fuel(crate::text::trimmed_end, 3);
    assert(whole[0] == quote);
    assert(whole[n - 1] == quote);
    if name.len() > 0 {
        assert(whole[1] == name[0]);
        assert(whole[n - 2] == name[name.len() - 1]);
        assert(whole.subrange(1, n - 1) =~= name);
    } else {
        assert(trimmed(whole, Class::Quote) =~= name);
    }
}

/// A speed condition holds where the comparison that its operator writes holds between the
/// event's speed and the threshold. An event without a speed counts as stopped. An operator
/// that is none of the six holds for no event.
pub proof fn law_a_speed_condition_compares_the_speed(
    condition: Seq<char>,
    threshold: Number,
    event: EventView,
)
    requires
        words(condition).len() == 3,
        words(condition)[0] == "speed"@,
    ensures
        compiled(condition, Some(threshold)) is Ok,
        ({
            let holds = (compiled(condition, Some(threshold))->Ok_0).admits(event);
            let op = words(condition)[1];
            let speed = if event.speed is Some {
                event.speed->0
            } else {
                zero()
            };
            &&& op == seq!['>'] ==> (holds <==> threshold.below(speed))
            &&& op == seq!['>', '='] ==> (holds <==> threshold.below(speed) || threshold.equals(
                speed,
            ))
            &&& op == seq!['<'] ==> (holds <==> speed.below(threshold))
            &&& op == seq!['<', '='] ==> (holds <==> speed.below(threshold) || speed.equals(
                threshold,
            ))
            &&& op == seq!['=', '='] ==> (holds <==> speed.equals(threshold))
            &&& op == seq!['!', '='] ==> (holds <==> !speed.equals(threshold))
            &&& op != seq!['>'] && op != seq!['>', '='] && op != seq!['<'] && op != seq![
                '<',
                '=',
            ] && op != seq!['=', '='] && op != seq!['!', '='] ==> !holds
        }),
{
    lemma_operators();
}

/// The operators, letter by letter, are six different texts.
proof fn lemma_operators()
    ensures
        ">"@ == seq!['>'],
        ">="@ == seq!['>', '='],
        "<"@ == seq!['<'],
        "<="@ == seq!['<', '='],
        "=="@ == seq!['=', '='],
        "!="@ == seq!['!', '='],
        ">"@.len() == 1 && ">"@[0] == '>',
        ">="@.len() == 2 && ">="@[0] == '>',
        "<"@.len() == 1 && "<"@[0] == '<',
        "<="@.len() == 2 && "<="@[0] == '<',
        "=="@.len() == 2 && "=="@[0] == '=',
        "!="@.len() == 2 && "!="@[0] == '!',
{
    reveal_strlit(">");
    reveal_strlit(">=");
    reveal_strlit("<");
    reveal_strlit("<=");
    reveal_strlit("==");
    reveal_strlit("!=");
    assert(">"@ =~= seq!['>']);
    assert(">="@ =~= seq!['>', '=']);
    assert("<"@ =~= seq!['<']);
    assert("<="@ =~= seq!['<', '=']);
    assert("=="@ =~= seq!['=', '=']);
    assert("!="@ =~= seq!['!', '=']);
}

/// An entity condition holds for the events of the entity that it names, without the quotes
/// round the name, or with `!=` for those of all others.
pub proof fn law_an_entity_condition_names_one_entity(
    condition: Seq<char>,
    threshold: Option<Number>,
    event: EventView,
)
    requires
        words(condition).len() == 3,
        words(condition)[0] == "entity_id"@,
    ensures
        words(condition)[1] == seq!['=', '='] ==> compiled(condition, threshold) is Ok && ((
        compiled(condition, threshold)->Ok_0).admits(event) <==> event.entity_id == trimmed(
            words(condition)[2],
            Class::Quote,
        )),
        words(condition)[1] == seq!['!', '='] ==> compiled(condition, threshold) is Ok && ((
        compiled(condition, threshold)->Ok_0).admits(event) <==> event.entity_id != trimmed(
            words(condition)[2],
            Class::Quote,
        )),
{
    lemma_operators();
    reveal_strlit("speed");
    reveal_strlit("entity_id");
    assert("speed"@.len() == 5 && "entity_id"@.len() == 9);
}

/// A condition that does not compile is refused with a message that quotes what was wrong
/// with it: the whole condition where it has not three words or its speed is no number, the
/// operator where an entity is compared otherwise than by `==` or `!=`, and the field where
/// it is neither a speed nor an entity.
pub proof fn law_a_refused_condition_is_told_why(condition: Seq<char>, threshold: Option<Number>)
    requires
        compiled(condition, threshold) is Err,
    ensures
        ({
            let message = compiled(condition, threshold)->Err_0;
            let tokens = words(condition);
            &&& tokens.len() != 3 ==> message == "unsupported filter condition: "@ + debug_text(
                condition,
            )
            &&& tokens.len() == 3 && tokens[0] == "speed"@ ==> message
                == "invalid speed value in condition: "@ + debug_text(condition)
            &&& tokens.len() == 3 && tokens[0] == "entity_id"@ ==> message
                == "unsupported operator for entity_id: "@ + debug_text(tokens[1])
            &&& tokens.len() == 3 && tokens[0] != "speed"@ && tokens[0] != "entity_id"@ ==> message
                == "unsupported filter field: "@ + debug_text(tokens[0])
        }),
{
    reveal_strlit("speed");
    reveal_strlit("entity_id");
    assert("speed"@.len() == 5 && "entity_id"@.len() == 9);
}

/// Three words with white space between them make a comparison: the field, the operator and
/// the value. Of a speed comparison the value is what is read as a number.
pub proof fn law_three_words_make_a_comparison(field: Seq<char>, op: Seq<char>, value: Seq<char>)
    requires
        field.len() > 0 && op.len() > 0 && value.len() > 0,
        forall|i: int| 0 <= i < field.len() ==> !is_space(#[trigger] field[i]),
        forall|i: int| 0 <= i < op.len() ==> !is_space(#[trigger] op[i]),
        forall|i: int| 0 <= i < value.len() ==> !is_space(#[trigger] value[i]),
    ensures
        ({
            let condition = field + seq![' '] + (op + seq![' '] + value);
            &&& words(condition) == seq![field, op, value]
            &&& field == "speed"@ ==> threshold_of(condition) == Some(value)
            &&& field != "speed"@ ==> threshold_of(condition) is None
        }),
{
    law_white_space_parts_the_words(field, ' ', op + seq![' '] + value);
    law_white_space_parts_the_words(op, ' ', value);
    law_white_space_parts_the_words(value, ' ', Seq::empty());
    assert(seq![field] + (seq![op] + seq![value]) =~= seq![field, op, value]);
}

} // verus!
