//! The per-conversation session machine.  A conversation is either waiting
//! for a verified contact (`Start`) or holding one (`AwaitingRequests`).
//! Each turn consumes one incoming message; the machine first says which
//! single store question the turn needs (`plan_turn`), and then, given the
//! answer, what the turn does (`step_turn`): the reply to send, the store
//! write to perform, and the state to move to.  Admin-gated actions check
//! admin membership at the moment of the action; nothing is cached across
//! messages.
use crate::codec::{
    parse_car_info, parse_spec, render_car_info, render_spec, ParseError, ParseOutcome,
};
use crate::plate::{normalize_license_plate, normalized};
use crate::record::RecordModel;
use crate::text::{chars_to_string, is_digit, occurs_at, str_to_chars, vec_slice};
use vstd::prelude::*;
use vstd::string::StringExecFns;

verus! {

// ---------------------------------------------------------------------------
// Conversation data.
// ---------------------------------------------------------------------------
pub ghost struct ContactModel {
    pub user_id: Option<i64>,
    pub phone_number: Seq<char>,
}

/// The contact payload of a message: who owns it and the phone number it
/// certifies.
pub struct ContactInfo {
    pub user_id: Option<i64>,
    pub phone_number: String,
}

impl View for ContactInfo {
    type V = ContactModel;

    open spec fn view(&self) -> ContactModel {
        ContactModel { user_id: self.user_id, phone_number: self.phone_number@ }
    }
}

pub ghost struct IncomingModel {
    pub chat_id: i64,
    pub is_private: bool,
    pub contact: Option<ContactModel>,
    pub text: Option<Seq<char>>,
}

/// What the machine reads of one incoming message.
pub struct Incoming {
    pub chat_id: i64,
    pub is_private: bool,
    pub contact: Option<ContactInfo>,
    pub text: Option<String>,
}

impl View for Incoming {
    type V = IncomingModel;

    open spec fn view(&self) -> IncomingModel {
        IncomingModel {
            chat_id: self.chat_id,
            is_private: self.is_private,
            contact: match self.contact {
                Option::Some(c) => Option::Some(c@),
                Option::None => Option::None,
            },
            text: match self.text {
                Option::Some(t) => Option::Some(t@),
                Option::None => Option::None,
            },
        }
    }
}

pub ghost enum StateModel {
    Start,
    AwaitingRequests { contact: ContactModel },
}

/// The persisted per-conversation state.
pub enum State {
    Start,
    AwaitingRequests { contact: ContactInfo },
}

impl View for State {
    type V = StateModel;

    open spec fn view(&self) -> StateModel {
        match self {
            State::Start => StateModel::Start,
            State::AwaitingRequests { contact } => StateModel::AwaitingRequests {
                contact: contact@,
            },
        }
    }
}

impl Default for State {
    fn default() -> (r: Self)
        ensures
            r@ == StateModel::Start,
    {
        State::Start
    }
}

// ---------------------------------------------------------------------------
// The store protocol of one turn.
// ---------------------------------------------------------------------------
pub ghost enum QueryModel {
    NoQuery,
    UserExists(Seq<char>),
    AdminExists(Seq<char>),
    CarGet(Seq<char>),
}

/// The single store question a turn needs, with the full key to ask about.
pub enum StoreQuery {
    NoQuery,
    UserExists(String),
    AdminExists(String),
    CarGet(String),
}

impl View for StoreQuery {
    type V = QueryModel;

    open spec fn view(&self) -> QueryModel {
        match self {
            StoreQuery::NoQuery => QueryModel::NoQuery,
            StoreQuery::UserExists(k) => QueryModel::UserExists(k@),
            StoreQuery::AdminExists(k) => QueryModel::AdminExists(k@),
            StoreQuery::CarGet(k) => QueryModel::CarGet(k@),
        }
    }
}

pub ghost enum AnswerModel {
    NoAnswer,
    Exists(bool),
    CarValue(Option<Seq<char>>),
}

/// The store's answer to the planned question.
pub enum QueryAnswer {
    NoAnswer,
    Exists(bool),
    CarValue(Option<String>),
}

impl View for QueryAnswer {
    type V = AnswerModel;

    open spec fn view(&self) -> AnswerModel {
        match self {
            QueryAnswer::NoAnswer => AnswerModel::NoAnswer,
            QueryAnswer::Exists(b) => AnswerModel::Exists(*b),
            QueryAnswer::CarValue(v) => AnswerModel::CarValue(
                match v {
                    Option::Some(s) => Option::Some(s@),
                    Option::None => Option::None,
                },
            ),
        }
    }
}

pub ghost enum WriteModel {
    Put { key: Seq<char>, value: Seq<char> },
    Remove { key: Seq<char> },
}

/// The single store write a turn performs, if any.
pub enum StoreWrite {
    Put { key: String, value: String },
    Remove { key: String },
}

impl View for StoreWrite {
    type V = WriteModel;

    open spec fn view(&self) -> WriteModel {
        match self {
            StoreWrite::Put { key, value } => WriteModel::Put { key: key@, value: value@ },
            StoreWrite::Remove { key } => WriteModel::Remove { key: key@ },
        }
    }
}

/// How a reply is presented in the conversation.
#[derive(Debug, Clone, Copy, PartialEq, Eq, Structural)]
pub enum Markup {
    NoMarkup,
    RequestContact,
    RemoveKeyboard,
}

pub ghost struct ReplyModel {
    pub text: Seq<char>,
    pub markup: Markup,
    pub quote_request: bool,
}

/// One outbound reply.
pub struct Reply {
    pub text: String,
    pub markup: Markup,
    pub quote_request: bool,
}

impl View for Reply {
    type V = ReplyModel;

    open spec fn view(&self) -> ReplyModel {
        ReplyModel { text: self.text@, markup: self.markup, quote_request: self.quote_request }
    }
}

pub ghost struct OutcomeModel {
    pub reply: Option<ReplyModel>,
    pub write: Option<WriteModel>,
    pub next_state: Option<StateModel>,
}

/// Everything a turn does after the store answered.
pub struct Outcome {
    pub reply: Option<Reply>,
    pub write: Option<StoreWrite>,
    pub next_state: Option<State>,
}

impl View for Outcome {
    type V = OutcomeModel;

    open spec fn view(&self) -> OutcomeModel {
        OutcomeModel {
            reply: match self.reply {
                Option::Some(r) => Option::Some(r@),
                Option::None => Option::None,
            },
            write: match self.write {
                Option::Some(w) => Option::Some(w@),
                Option::None => Option::None,
            },
            next_state: match self.next_state {
                Option::Some(s) => Option::Some(s@),
                Option::None => Option::None,
            },
        }
    }
}

/// A failure that aborts the turn with no reply.
#[derive(Debug, Clone, Copy, PartialEq, Eq, Structural)]
pub enum TurnError {
    /// A stored record came back but does not parse.
    StoredRecordCorrupt,
    /// A submission's occupant count exceeds the representable range.
    CountOutOfRange,
}

// ---------------------------------------------------------------------------
// The access gate's key material.
// ---------------------------------------------------------------------------
/// The digits of a phone number, with every other character dropped, so
/// that formatting never matters to membership.
pub open spec fn digits_of(s: Seq<char>) -> Seq<char>
    decreases s.len(),
{
    if s.len() == 0 {
        Seq::empty()
    } else {
        (if is_digit(s[0]) {
            seq![s[0]]
        } else {
            Seq::empty()
        }) + digits_of(s.drop_first())
    }
}

proof fn lemma_digits_of_push(s: Seq<char>, c: char)
    ensures
        digits_of(s.push(c)) == digits_of(s) + (if is_digit(c) {
            seq![c]
        } else {
            Seq::<char>::empty()
        }),
    decreases s.len(),
{
    if s.len() == 0 {
        assert(s.push(c)[0] == c);
        assert(s.push(c).len() == 1);
        assert(s.push(c).drop_first() =~= Seq::<char>::empty());
        assert(digits_of(s.push(c)) == (if is_digit(c) {
            seq![c]
        } else {
            Seq::<char>::empty()
        }) + digits_of(Seq::<char>::empty()));
        assert(digits_of(Seq::<char>::empty()) == Seq::<char>::empty());
        assert(digits_of(s) == Seq::<char>::empty());
        assert(digits_of(s.push(c)) =~= digits_of(s) + (if is_digit(c) {
            seq![c]
        } else {
            Seq::<char>::empty()
        }));
    } else {
        assert(s.push(c)[0] == s[0]);
        assert(s.push(c).drop_first() =~= s.drop_first().push(c));
        lemma_digits_of_push(s.drop_first(), c);
        assert(digits_of(s.push(c)) =~= digits_of(s) + (if is_digit(c) {
            seq![c]
        } else {
            Seq::<char>::empty()
        }));
    }
}

fn filter_digits(v: &Vec<char>) -> (r: Vec<char>)
    ensures
        r@ == digits_of(v@),
{
    let n: usize = v.len();
    let mut r: Vec<char> = Vec::new();
    let mut i: usize = 0;
    while i < n
        invariant
            i <= n,
            n == v@.len(),
            r@ == digits_of(v@.take(i as int)),
        decreases n - i,
    {
        let c = v[i];
        if '0' <= c && c <= '9' {
            r.push(c);
        }
        i = i + 1;
        proof {
            assert(v@.take(i as int) =~= v@.take(i - 1).push(c));
            lemma_digits_of_push(v@.take(i - 1), c);
            assert(r@ =~= digits_of(v@.take(i as int)));
        }
    }
    proof {
        assert(v@.take(n as int) =~= v@);
    }
    r
}

/// Allowed-user key of a phone number.
pub open spec fn user_key(phone: Seq<char>) -> Seq<char> {
    "USER:"@ + digits_of(phone)
}

/// Allowed-admin key of a phone number.
pub open spec fn admin_key(phone: Seq<char>) -> Seq<char> {
    "ADMIN:"@ + digits_of(phone)
}

/// Record key of a normalized plate.
pub open spec fn car_key(plate: Seq<char>) -> Seq<char> {
    "CAR:"@ + plate
}

fn user_key_exec(phone: &str) -> (r: String)
    ensures
        r@ == user_key(phone@),
{
    let chars = str_to_chars(phone);
    let d = filter_digits(&chars);
    let ds = chars_to_string(&d);
    let mut k = String::new();
    k.append("USER:");
    k.append(ds.as_str());
    proof {
        assert(k@ =~= user_key(phone@));
    }
    k
}

fn admin_key_exec(phone: &str) -> (r: String)
    ensures
        r@ == admin_key(phone@),
{
    let chars = str_to_chars(phone);
    let d = filter_digits(&chars);
    let ds = chars_to_string(&d);
    let mut k = String::new();
    k.append("ADMIN:");
    k.append(ds.as_str());
    proof {
        assert(k@ =~= admin_key(phone@));
    }
    k
}

// ---------------------------------------------------------------------------
// Reply texts.
// ---------------------------------------------------------------------------
pub open spec fn prompt_press_text() -> Seq<char> {
    "Натисніть \"Підтвердити мій номер телефону\" щоб продовжити."@
}

pub open spec fn send_own_contact_text() -> Seq<char> {
    "Відправте свій контакт."@
}

pub open spec fn not_allowed_text() -> Seq<char> {
    "Нажаль вашого номеру телефона ще нема в списку дозволених. Зверніться до адміністратора, та відправте свій контакт знов."@
}

pub open spec fn confirmed_text(phone: Seq<char>) -> Seq<char> {
    "Ваш номер "@ + phone
        + " підтверджено. Просто надсилайте текстове повідомлення з номерними знаками і бот відповість чи є такий запис в базі."@
}

pub open spec fn guidance_text() -> Seq<char> {
    "Просто надсилайте текстове повідомлення з номерними знаками і бот відповість чи є такий запис в базі."@
}

pub open spec fn user_added_text(d: Seq<char>) -> Seq<char> {
    "Користувача з номером телефону "@ + d + " додано."@
}

pub open spec fn user_removed_text(d: Seq<char>) -> Seq<char> {
    "Користувача з номером телефону "@ + d + " видалено."@
}

pub open spec fn admin_added_text(d: Seq<char>) -> Seq<char> {
    "Адміна з номером телефону "@ + d + " додано."@
}

pub open spec fn admin_removed_text(d: Seq<char>) -> Seq<char> {
    "Адміна з номером телефону "@ + d + " видалено."@
}

pub open spec fn exact_match_text(plate: Seq<char>, record: RecordModel) -> Seq<char> {
    "Є точний збіг!\n\n"@ + render_spec(record, plate)
}

pub open spec fn not_found_text(plate: Seq<char>) -> Seq<char> {
    "Інформації за номерними знаками \""@ + plate
        + "\" не знайдено. Просто надсилайте текстове повідомлення з номерними знаками і бот відповість чи є такий запис в базі."@
}

pub open spec fn record_added_text(plate: Seq<char>) -> Seq<char> {
    "Інформацію про авто з номерними знаками \""@ + plate + "\" додано"@
}

pub open spec fn check_format_text() -> Seq<char> {
    "Не вдалось розібрати запит на додавання інформації про авто. Перевірте форму (зайві пусті строки тощо не можуть бути оброблені автоматично)"@
}

// ---------------------------------------------------------------------------
// What a turn does: the specification.
// ---------------------------------------------------------------------------
pub open spec fn starts_with(s: Seq<char>, p: Seq<char>) -> bool {
    s.len() >= p.len() && s.subrange(0, p.len() as int) == p
}

/// The single store question a turn asks first, as a function of the
/// state and the message alone.
pub open spec fn plan_spec(state: StateModel, msg: IncomingModel) -> QueryModel {
    match state {
        StateModel::Start => {
            if !msg.is_private {
                QueryModel::NoQuery
            } else {
                match msg.contact {
                    Option::Some(ct) => if ct.user_id == Option::Some(msg.chat_id) {
                        QueryModel::UserExists(user_key(ct.phone_number))
                    } else {
                        QueryModel::NoQuery
                    },
                    Option::None => QueryModel::NoQuery,
                }
            }
        },
        StateModel::AwaitingRequests { contact } => {
            match msg.text {
                Option::None => QueryModel::NoQuery,
                Option::Some(t) => {
                    if t.len() >= 1 && t[0] == '/' {
                        QueryModel::AdminExists(admin_key(contact.phone_number))
                    } else if t.len() < 20 {
                        QueryModel::CarGet(car_key(normalized(t)))
                    } else {
                        QueryModel::AdminExists(admin_key(contact.phone_number))
                    }
                },
            }
        },
    }
}

/// The answer's shape matches the planned question's shape.
pub open spec fn answer_fits(state: StateModel, msg: IncomingModel, ans: AnswerModel) -> bool {
    match state {
        StateModel::Start => {
            if !msg.is_private {
                ans is NoAnswer
            } else {
                match msg.contact {
                    Option::Some(ct) => if ct.user_id == Option::Some(msg.chat_id) {
                        ans is Exists
                    } else {
                        ans is NoAnswer
                    },
                    Option::None => ans is NoAnswer,
                }
            }
        },
        StateModel::AwaitingRequests { contact } => {
            match msg.text {
                Option::None => ans is NoAnswer,
                Option::Some(t) => {
                    if t.len() >= 1 && t[0] == '/' {
                        ans is Exists
                    } else if t.len() < 20 {
                        ans is CarValue
                    } else {
                        ans is Exists
                    }
                },
            }
        },
    }
}

pub open spec fn no_outcome() -> OutcomeModel {
    OutcomeModel { reply: Option::None, write: Option::None, next_state: Option::None }
}

pub open spec fn reply_outcome(text: Seq<char>, markup: Markup) -> OutcomeModel {
    OutcomeModel {
        reply: Option::Some(ReplyModel { text, markup, quote_request: false }),
        write: Option::None,
        next_state: Option::None,
    }
}

/// A turn in `Start`: ignore non-private chats; without a contact, prompt
/// for one; reject a contact owned by someone other than the sender;
/// reject a phone number that is not on the allow-list; otherwise move to
/// `AwaitingRequests` holding the verified contact.
pub open spec fn start_step(msg: IncomingModel, ans: AnswerModel) -> OutcomeModel {
    if !msg.is_private {
        no_outcome()
    } else {
        match msg.contact {
            Option::None => reply_outcome(prompt_press_text(), Markup::RequestContact),
            Option::Some(ct) => {
                if ct.user_id != Option::Some(msg.chat_id) {
                    reply_outcome(send_own_contact_text(), Markup::RequestContact)
                } else if ans != AnswerModel::Exists(true) {
                    reply_outcome(not_allowed_text(), Markup::RequestContact)
                } else {
                    OutcomeModel {
                        reply: Option::Some(ReplyModel {
                            text: confirmed_text(ct.phone_number),
                            markup: Markup::RemoveKeyboard,
                            quote_request: false,
                        }),
                        write: Option::None,
                        next_state: Option::Some(StateModel::AwaitingRequests { contact: ct }),
                    }
                }
            },
        }
    }
}

/// A command turn: nothing runs without current admin membership, and an
/// unrecognized command is silently consumed.  A recognized command takes
/// the rest of the text, keeps only its digits, mutates the allow-list
/// under that phone number and confirms.
pub open spec fn command_step(t: Seq<char>, is_admin: bool) -> OutcomeModel {
    if !is_admin {
        no_outcome()
    } else if starts_with(t, "/adduser "@) {
        let d = digits_of(t.subrange("/adduser "@.len() as int, t.len() as int));
        OutcomeModel {
            reply: Option::Some(ReplyModel {
                text: user_added_text(d),
                markup: Markup::NoMarkup,
                quote_request: false,
            }),
            write: Option::Some(WriteModel::Put { key: "USER:"@ + d, value: Seq::empty() }),
            next_state: Option::None,
        }
    } else if starts_with(t, "/deluser "@) {
        let d = digits_of(t.subrange("/deluser "@.len() as int, t.len() as int));
        OutcomeModel {
            reply: Option::Some(ReplyModel {
                text: user_removed_text(d),
                markup: Markup::NoMarkup,
                quote_request: false,
            }),
            write: Option::Some(WriteModel::Remove { key: "USER:"@ + d }),
            next_state: Option::None,
        }
    } else if starts_with(t, "/addadmin "@) {
        let d = digits_of(t.subrange("/addadmin "@.len() as int, t.len() as int));
        OutcomeModel {
            reply: Option::Some(ReplyModel {
                text: admin_added_text(d),
                markup: Markup::NoMarkup,
                quote_request: false,
            }),
            write: Option::Some(WriteModel::Put { key: "ADMIN:"@ + d, value: Seq::empty() }),
            next_state: Option::None,
        }
    } else if starts_with(t, "/deladmin "@) {
        let d = digits_of(t.subrange("/deladmin "@.len() as int, t.len() as int));
        OutcomeModel {
            reply: Option::Some(ReplyModel {
                text: admin_removed_text(d),
                markup: Markup::NoMarkup,
                quote_request: false,
            }),
            write: Option::Some(WriteModel::Remove { key: "ADMIN:"@ + d }),
            next_state: Option::None,
        }
    } else {
        no_outcome()
    }
}

pub open spec fn ans_car(ans: AnswerModel) -> Option<Seq<char>> {
    match ans {
        AnswerModel::CarValue(v) => v,
        _ => Option::None,
    }
}

/// A lookup turn: a missing record is answered with the not-found reply,
/// never an error; a stored record is parsed and rendered back under the
/// queried plate; a stored value that does not parse aborts the turn.
pub open spec fn lookup_step(t: Seq<char>, stored: Option<Seq<char>>) -> Result<
    OutcomeModel,
    TurnError,
> {
    let plate = normalized(t);
    match stored {
        Option::None => Result::Ok(reply_outcome(not_found_text(plate), Markup::NoMarkup)),
        Option::Some(raw) => match parse_spec(raw) {
            ParseOutcome::Parsed { plate: _, record } => Result::Ok(
                reply_outcome(exact_match_text(plate, record), Markup::NoMarkup),
            ),
            _ => Result::Err(TurnError::StoredRecordCorrupt),
        },
    }
}

/// A submission turn: without current admin membership nothing is written
/// and the generic guidance is sent; an admin's submission is parsed and,
/// on success, stored under its normalized plate; a malformed submission
/// gets the format diagnostic; an out-of-range occupant count aborts the
/// turn.
pub open spec fn submit_step(t: Seq<char>, is_admin: bool) -> Result<OutcomeModel, TurnError> {
    if !is_admin {
        Result::Ok(reply_outcome(guidance_text(), Markup::NoMarkup))
    } else {
        match parse_spec(t) {
            ParseOutcome::Parsed { plate, record } => Result::Ok(
                OutcomeModel {
                    reply: Option::Some(ReplyModel {
                        text: record_added_text(plate),
                        markup: Markup::NoMarkup,
                        quote_request: true,
                    }),
                    write: Option::Some(WriteModel::Put {
                        key: car_key(plate),
                        value: render_spec(record, plate),
                    }),
                    next_state: Option::None,
                },
            ),
            ParseOutcome::Malformed => Result::Ok(
                reply_outcome(check_format_text(), Markup::NoMarkup),
            ),
            ParseOutcome::CountOutOfRange => Result::Err(TurnError::CountOutOfRange),
        }
    }
}

/// What a whole turn does, given the state, the message, and the store's
/// answer to the planned question.
pub open spec fn step_spec(state: StateModel, msg: IncomingModel, ans: AnswerModel) -> Result<
    OutcomeModel,
    TurnError,
> {
    match state {
        StateModel::Start => Result::Ok(start_step(msg, ans)),
        StateModel::AwaitingRequests { contact } => {
            match msg.text {
                Option::None => Result::Ok(reply_outcome(guidance_text(), Markup::NoMarkup)),
                Option::Some(t) => {
                    if t.len() >= 1 && t[0] == '/' {
                        Result::Ok(command_step(t, ans == AnswerModel::Exists(true)))
                    } else if t.len() < 20 {
                        lookup_step(t, ans_car(ans))
                    } else {
                        submit_step(t, ans == AnswerModel::Exists(true))
                    }
                },
            }
        },
    }
}

// ---------------------------------------------------------------------------
// The executable turn.
// ---------------------------------------------------------------------------
/// Which single store question this turn needs before it can act.
pub fn plan_turn(state: &State, msg: &Incoming) -> (q: StoreQuery)
    ensures
        q@ == plan_spec(state@, msg@),
{
    match state {
        State::Start => {
            if !msg.is_private {
                return StoreQuery::NoQuery;
            }
            match &msg.contact {
                Option::Some(ct) => {
                    let from_sender: bool = match ct.user_id {
                        Option::Some(u) => u == msg.chat_id,
                        Option::None => false,
                    };
                    if from_sender {
                        StoreQuery::UserExists(user_key_exec(ct.phone_number.as_str()))
                    } else {
                        StoreQuery::NoQuery
                    }
                },
                Option::None => StoreQuery::NoQuery,
            }
        },
        State::AwaitingRequests { contact } => {
            match &msg.text {
                Option::None => StoreQuery::NoQuery,
                Option::Some(t) => {
                    let tc = str_to_chars(t.as_str());
                    if tc.len() >= 1 && tc[0] == '/' {
                        StoreQuery::AdminExists(admin_key_exec(contact.phone_number.as_str()))
                    } else if tc.len() < 20 {
                        let plate = normalize_license_plate(t.as_str());
                        let mut k = String::new();
                        k.append("CAR:");
                        k.append(plate.as_str());
                        proof {
                            assert(k@ =~= car_key(normalized(t@)));
                        }
                        StoreQuery::CarGet(k)
                    } else {
                        StoreQuery::AdminExists(admin_key_exec(contact.phone_number.as_str()))
                    }
                },
            }
        },
    }
}

fn empty_outcome() -> (o: Outcome)
    ensures
        o@ == no_outcome(),
{
    Outcome { reply: Option::None, write: Option::None, next_state: Option::None }
}

fn text_reply(text: String, markup: Markup) -> (o: Outcome)
    ensures
        o@ == reply_outcome(text@, markup),
{
    Outcome {
        reply: Option::Some(Reply { text, markup, quote_request: false }),
        write: Option::None,
        next_state: Option::None,
    }
}

fn run_start(msg: &Incoming, answer: &QueryAnswer) -> (o: Outcome)
    ensures
        o@ == start_step(msg@, answer@),
{
    if !msg.is_private {
        return empty_outcome();
    }
    match &msg.contact {
        Option::None => text_reply(
            String::from_str("Натисніть \"Підтвердити мій номер телефону\" щоб продовжити."),
            Markup::RequestContact,
        ),
        Option::Some(ct) => {
            let from_sender: bool = match ct.user_id {
                Option::Some(u) => u == msg.chat_id,
                Option::None => false,
            };
            if !from_sender {
                return text_reply(
                    String::from_str("Відправте свій контакт."),
                    Markup::RequestContact,
                );
            }
            let allowed: bool = match answer {
                QueryAnswer::Exists(b) => *b,
                _ => false,
            };
            if !allowed {
                return text_reply(
                    String::from_str(
                        "Нажаль вашого номеру телефона ще нема в списку дозволених. Зверніться до адміністратора, та відправте свій контакт знов.",
                    ),
                    Markup::RequestContact,
                );
            }
            let mut confirm = String::new();
            confirm.append("Ваш номер ");
            confirm.append(ct.phone_number.as_str());
            confirm.append(
                " підтверджено. Просто надсилайте текстове повідомлення з номерними знаками і бот відповість чи є такий запис в базі.",
            );
            proof {
                assert(confirm@ =~= confirmed_text(ct.phone_number@));
            }
            Outcome {
                reply: Option::Some(Reply {
                    text: confirm,
                    markup: Markup::RemoveKeyboard,
                    quote_request: false,
                }),
                write: Option::None,
                next_state: Option::Some(
                    State::AwaitingRequests {
                        contact: ContactInfo {
                            user_id: ct.user_id,
                            phone_number: ct.phone_number.clone(),
                        },
                    },
                ),
            }
        },
    }
}

fn command_confirmation(lead: &str, digits: &String, trailer: &str) -> (r: String)
    ensures
        r@ == lead@ + digits@ + trailer@,
{
    let mut t = String::new();
    t.append(lead);
    t.append(digits.as_str());
    t.append(trailer);
    proof {
        assert(t@ =~= lead@ + digits@ + trailer@);
    }
    t
}

fn keyed(prefix: &str, digits: &String) -> (r: String)
    ensures
        r@ == prefix@ + digits@,
{
    let mut k = String::new();
    k.append(prefix);
    k.append(digits.as_str());
    proof {
        assert(k@ =~= prefix@ + digits@);
    }
    k
}

fn command_argument(tc: &Vec<char>, prefix_len: usize) -> (r: String)
    requires
        prefix_len <= tc@.len(),
    ensures
        r@ == digits_of(tc@.subrange(prefix_len as int, tc@.len() as int)),
{
    let rem = vec_slice(tc, prefix_len, tc.len());
    let d = filter_digits(&rem);
    chars_to_string(&d)
}

fn run_command(tc: &Vec<char>, is_admin: bool) -> (o: Outcome)
    ensures
        o@ == command_step(tc@, is_admin),
{
    if !is_admin {
        return empty_outcome();
    }
    let p_adduser = str_to_chars("/adduser ");
    let p_deluser = str_to_chars("/deluser ");
    let p_addadmin = str_to_chars("/addadmin ");
    let p_deladmin = str_to_chars("/deladmin ");
    let n: usize = tc.len();
    if n >= p_adduser.len() && occurs_at(tc, 0, &p_adduser) {
        let ds = command_argument(tc, p_adduser.len());
        let text = command_confirmation("Користувача з номером телефону ", &ds, " додано.");
        let key = keyed("USER:", &ds);
        return Outcome {
            reply: Option::Some(Reply { text, markup: Markup::NoMarkup, quote_request: false }),
            write: Option::Some(StoreWrite::Put { key, value: String::new() }),
            next_state: Option::None,
        };
    }
    if n >= p_deluser.len() && occurs_at(tc, 0, &p_deluser) {
        let ds = command_argument(tc, p_deluser.len());
        let text = command_confirmation("Користувача з номером телефону ", &ds, " видалено.");
        let key = keyed("USER:", &ds);
        return Outcome {
            reply: Option::Some(Reply { text, markup: Markup::NoMarkup, quote_request: false }),
            write: Option::Some(StoreWrite::Remove { key }),
            next_state: Option::None,
        };
    }
    if n >= p_addadmin.len() && occurs_at(tc, 0, &p_addadmin) {
        let ds = command_argument(tc, p_addadmin.len());
        let text = command_confirmation("Адміна з номером телефону ", &ds, " додано.");
        let key = keyed("ADMIN:", &ds);
        return Outcome {
            reply: Option::Some(Reply { text, markup: Markup::NoMarkup, quote_request: false }),
            write: Option::Some(StoreWrite::Put { key, value: String::new() }),
            next_state: Option::None,
        };
    }
    if n >= p_deladmin.len() && occurs_at(tc, 0, &p_deladmin) {
        let ds = command_argument(tc, p_deladmin.len());
        let text = command_confirmation("Адміна з номером телефону ", &ds, " видалено.");
        let key = keyed("ADMIN:", &ds);
        return Outcome {
            reply: Option::Some(Reply { text, markup: Markup::NoMarkup, quote_request: false }),
            write: Option::Some(StoreWrite::Remove { key }),
            next_state: Option::None,
        };
    }
    empty_outcome()
}

fn run_lookup(t: &String, answer: &QueryAnswer) -> (r: Result<Outcome, TurnError>)
    ensures
        match r {
            Result::Ok(o) => lookup_step(t@, ans_car(answer@)) == Result::<
                OutcomeModel,
                TurnError,
            >::Ok(o@),
            Result::Err(e) => lookup_step(t@, ans_car(answer@)) == Result::<
                OutcomeModel,
                TurnError,
            >::Err(e),
        },
{
    let plate = normalize_license_plate(t.as_str());
    match answer {
        QueryAnswer::CarValue(Option::Some(raw)) => {
            match parse_car_info(raw.as_str()) {
                Result::Ok(parsed) => {
                    let rendered = render_car_info(&parsed.1, plate.as_str());
                    let mut text = String::new();
                    text.append("Є точний збіг!\n\n");
                    text.append(rendered.as_str());
                    proof {
                        assert(text@ =~= exact_match_text(normalized(t@), parsed.1@));
                    }
                    Result::Ok(text_reply(text, Markup::NoMarkup))
                },
                Result::Err(_) => Result::Err(TurnError::StoredRecordCorrupt),
            }
        },
        _ => {
            let mut text = String::new();
            text.append("Інформації за номерними знаками \"");
            text.append(plate.as_str());
            text.append(
                "\" не знайдено. Просто надсилайте текстове повідомлення з номерними знаками і бот відповість чи є такий запис в базі.",
            );
            proof {
                assert(text@ =~= not_found_text(normalized(t@)));
            }
            Result::Ok(text_reply(text, Markup::NoMarkup))
        },
    }
}

fn run_submit(t: &String, is_admin: bool) -> (r: Result<Outcome, TurnError>)
    ensures
        match r {
            Result::Ok(o) => submit_step(t@, is_admin) == Result::<OutcomeModel, TurnError>::Ok(
                o@,
            ),
            Result::Err(e) => submit_step(t@, is_admin) == Result::<OutcomeModel, TurnError>::Err(
                e,
            ),
        },
{
    if !is_admin {
        return Result::Ok(
            text_reply(
                String::from_str(
                    "Просто надсилайте текстове повідомлення з номерними знаками і бот відповість чи є такий запис в базі.",
                ),
                Markup::NoMarkup,
            ),
        );
    }
    match parse_car_info(t.as_str()) {
        Result::Ok(parsed) => {
            let rendered = render_car_info(&parsed.1, parsed.0.as_str());
            let mut key = String::new();
            key.append("CAR:");
            key.append(parsed.0.as_str());
            let mut text = String::new();
            text.append("Інформацію про авто з номерними знаками \"");
            text.append(parsed.0.as_str());
            text.append("\" додано");
            proof {
                assert(key@ =~= car_key(parsed.0@));
                assert(text@ =~= record_added_text(parsed.0@));
            }
            Result::Ok(
                Outcome {
                    reply: Option::Some(
                        Reply { text, markup: Markup::NoMarkup, quote_request: true },
                    ),
                    write: Option::Some(StoreWrite::Put { key, value: rendered }),
                    next_state: Option::None,
                },
            )
        },
        Result::Err(ParseError::Malformed) => Result::Ok(
            text_reply(
                String::from_str(
                    "Не вдалось розібрати запит на додавання інформації про авто. Перевірте форму (зайві пусті строки тощо не можуть бути оброблені автоматично)",
                ),
                Markup::NoMarkup,
            ),
        ),
        Result::Err(ParseError::CountOutOfRange) => Result::Err(TurnError::CountOutOfRange),
    }
}

/// Act on one turn, given the store's answer to the planned question.
pub fn step_turn(state: &State, msg: &Incoming, answer: &QueryAnswer) -> (r: Result<
    Outcome,
    TurnError,
>)
    requires
        answer_fits(state@, msg@, answer@),
    ensures
        match r {
            Result::Ok(o) => step_spec(state@, msg@, answer@) == Result::<
                OutcomeModel,
                TurnError,
            >::Ok(o@),
            Result::Err(e) => step_spec(state@, msg@, answer@) == Result::<
                OutcomeModel,
                TurnError,
            >::Err(e),
        },
{
    match state {
        State::Start => Result::Ok(run_start(msg, answer)),
        State::AwaitingRequests { contact } => {
            match &msg.text {
                Option::None => Result::Ok(
                    text_reply(
                        String::from_str(
                            "Просто надсилайте текстове повідомлення з номерними знаками і бот відповість чи є такий запис в базі.",
                        ),
                        Markup::NoMarkup,
                    ),
                ),
                Option::Some(t) => {
                    let tc = str_to_chars(t.as_str());
                    let admin_now: bool = match answer {
                        QueryAnswer::Exists(b) => *b,
                        _ => false,
                    };
                    if tc.len() >= 1 && tc[0] == '/' {
                        Result::Ok(run_command(&tc, admin_now))
                    } else if tc.len() < 20 {
                        run_lookup(t, answer)
                    } else {
                        run_submit(t, admin_now)
                    }
                },
            }
        },
    }
}

// ---------------------------------------------------------------------------
// Laws of the machine.
// ---------------------------------------------------------------------------
/// Looking up a plate with no stored record is answered with the
/// not-found reply: no write, no state change, and never an error.
pub proof fn lemma_lookup_missing_is_not_found(
    state: StateModel,
    msg: IncomingModel,
    ans: AnswerModel,
    contact: ContactModel,
    t: Seq<char>,
)
    requires
        state == (StateModel::AwaitingRequests { contact }),
        msg.text == Option::Some(t),
        !(t.len() >= 1 && t[0] == '/'),
        t.len() < 20,
        ans == AnswerModel::CarValue(Option::<Seq<char>>::None),
    ensures
        step_spec(state, msg, ans) == Result::<OutcomeModel, TurnError>::Ok(
            reply_outcome(not_found_text(normalized(t)), Markup::NoMarkup),
        ),
{
}

/// A sender who is not currently an admin never causes a store write with
/// a text of twenty or more characters, whether it is a command, valid
/// record grammar, or anything else.
pub proof fn lemma_non_admin_long_text_no_write(
    state: StateModel,
    msg: IncomingModel,
    ans: AnswerModel,
    contact: ContactModel,
    t: Seq<char>,
)
    requires
        state == (StateModel::AwaitingRequests { contact }),
        msg.text == Option::Some(t),
        t.len() >= 20,
        ans == AnswerModel::Exists(false),
    ensures
        step_spec(state, msg, ans) matches Result::Ok(o) && o.write is None,
{
}

/// A command from a sender who is not currently an admin is consumed
/// silently: no allow-list mutation, no reply, no state change.
pub proof fn lemma_non_admin_command_silent(
    state: StateModel,
    msg: IncomingModel,
    ans: AnswerModel,
    contact: ContactModel,
    t: Seq<char>,
)
    requires
        state == (StateModel::AwaitingRequests { contact }),
        msg.text == Option::Some(t),
        t.len() >= 1,
        t[0] == '/',
        ans == AnswerModel::Exists(false),
    ensures
        step_spec(state, msg, ans) == Result::<OutcomeModel, TurnError>::Ok(no_outcome()),
{
}

} // verus!


