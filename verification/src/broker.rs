use vstd::prelude::*;
use crate::strmap::StrMap;
use crate::text::{trim_spec, trim_str, trimmed};

verus! {

/// A registered user: its id and its name.
#[derive(Debug)]
pub struct User {
    pub id: String,
    pub nombre: String,
}

/// The model of a `User`.
pub struct UserView {
    pub id: Seq<char>,
    pub nombre: Seq<char>,
}

impl View for User {
    type V = UserView;

    open spec fn view(&self) -> UserView {
        UserView { id: self.id@, nombre: self.nombre@ }
    }
}

impl Clone for User {
    fn clone(&self) -> (r: Self)
        ensures
            r@ == self@,
    {
        User { id: self.id.clone(), nombre: self.nombre.clone() }
    }
}

/// A message posted to a topic: the id of its author and its content.
#[derive(Debug)]
pub struct Message {
    pub id: String,
    pub contenido: String,
}

/// The model of a `Message`.
pub struct MessageView {
    pub id: Seq<char>,
    pub contenido: Seq<char>,
}

impl View for Message {
    type V = MessageView;

    open spec fn view(&self) -> MessageView {
        MessageView { id: self.id@, contenido: self.contenido@ }
    }
}

impl Clone for Message {
    fn clone(&self) -> (r: Self)
        ensures
            r@ == self@,
    {
        Message { id: self.id.clone(), contenido: self.contenido.clone() }
    }
}

/// A subscriber of a topic: the user, whether it is watching the topic now,
/// and the handle of the stream that carries the topic's messages to it while
/// it watches.
pub struct Cliente {
    pub usuario: User,
    pub conectado: bool,
    pub stream: Option<u64>,
}

/// The model of a `Cliente`.
pub struct ClienteView {
    pub usuario: UserView,
    pub conectado: bool,
    pub stream: Option<u64>,
}

impl View for Cliente {
    type V = ClienteView;

    open spec fn view(&self) -> ClienteView {
        ClienteView { usuario: self.usuario@, conectado: self.conectado, stream: self.stream }
    }
}

/// The kind of a refused request.
#[derive(PartialEq, Eq, Structural, Clone, Copy, Debug)]
pub enum ErrorCode {
    InvalidArgument,
    AlreadyExists,
    NotFound,
    PermissionDenied,
}

/// A refused request: its kind and the text that explains it.
#[derive(Debug)]
pub struct BrokerError {
    pub code: ErrorCode,
    pub message: String,
}

/// Whether `r` is a refusal of kind `code` with the text `message`.
pub open spec fn refused<T>(r: Result<T, BrokerError>, code: ErrorCode, message: Seq<char>) -> bool {
    r matches Err(e) && e.code == code && e.message@ == message
}

fn refuse<T>(code: ErrorCode, message: String) -> (r: Result<T, BrokerError>)
    ensures
        refused(r, code, message@),
{
    Err(BrokerError { code, message })
}

/// A copy of the messages in `v`, in the same order.
fn copy_messages(v: &Vec<Message>) -> (r: Vec<Message>)
    ensures
        r@.map_values(|m: Message| m@) == v@.map_values(|m: Message| m@),
{
    let mut r: Vec<Message> = Vec::new();
    let mut i: usize = 0;
    while i < v.len()
        invariant
            i <= v.len(),
            r@.len() == i,
            forall|j: int| 0 <= j < i ==> #[trigger] r@[j]@ == v@[j]@,
        decreases v.len() - i,
    {
        r.push(v[i].clone());
        i = i + 1;
    }
    assert(r@.map_values(|m: Message| m@) =~= v@.map_values(|m: Message| m@));
    r
}

/// `streams` holds the stream of each subscriber of `t` that watches it,
/// once per such subscriber, in some order.
pub open spec fn delivers_to(t: TopicView, streams: Seq<u64>) -> bool {
    exists|keys: Seq<Seq<char>>|
        {
            &&& keys.no_duplicates()
            &&& keys.to_set() == t.watching()
            &&& streams == keys.map_values(|k: Seq<char>| t.suscriptores[k].stream->0)
        }
}

/// The streams of the subscribers that watch the topic, one per subscriber.
fn watching_streams(subs: &StrMap<Cliente>) -> (r: Vec<u64>)
    requires
        subs.wf(),
    ensures
        delivers_to(
            TopicView { mensajes: Seq::empty(), suscriptores: subs@.map_values(|c: Cliente| c@) },
            r@,
        ),
{
    let ghost tv = TopicView { mensajes: Seq::empty(), suscriptores: subs@.map_values(|c: Cliente| c@) };
    let ghost f = |k: Seq<char>| tv.suscriptores[k].stream->0;
    proof {
        subs.lemma_view();
    }
    let mut r: Vec<u64> = Vec::new();
    let ghost mut keys: Seq<Seq<char>> = Seq::empty();
    let n = subs.len();
    let mut i: usize = 0;
    while i < n
        invariant
            n == subs.key_seq().len(),
            n == subs.value_seq().len(),
            i <= n,
            subs.wf(),
            subs.key_seq().no_duplicates(),
            forall|j: int| 0 <= j < n ==> #[trigger] subs@[subs.key_seq()[j]] == subs.value_seq()[j],
            forall|k: Seq<char>| #[trigger] subs@.contains_key(k) <==> subs.key_seq().contains(k),
            tv == (TopicView { mensajes: Seq::empty(), suscriptores: subs@.map_values(|c: Cliente| c@) }),
            f == (|k: Seq<char>| tv.suscriptores[k].stream->0),
            keys.no_duplicates(),
            r@ == keys.map_values(f),
            forall|k: Seq<char>| #[trigger] keys.contains(k) <==> (exists|j: int| 0 <= j < i && subs.key_seq()[j] == k && tv.watching().contains(k)),
        decreases n - i,
    {
        let c = subs.value_at(i);
        let ghost k = subs.key_seq()[i as int];
        if c.conectado {
            match c.stream {
                Some(h) => {
                    proof {
                        assert(subs.key_seq().contains(k));
                        assert(tv.suscriptores[k] == c@);
                        assert(!keys.contains(k)) by {
                            if keys.contains(k) {
                                let j = choose|j: int| 0 <= j < i && subs.key_seq()[j] == k && tv.watching().contains(k);
                                assert(subs.key_seq()[j] == subs.key_seq()[i as int]);
                            }
                        }
                    }
                    r.push(h);
                    proof {
                        let old_keys = keys;
                        keys = keys.push(k);
                        assert(r@ =~= keys.map_values(f));
                        assert forall|a: int, b: int| 0 <= a < keys.len() && 0 <= b < keys.len() && a != b implies keys[a] != keys[b] by {
                            if a == old_keys.len() {
                                assert(old_keys.contains(keys[b]));
                            } else if b == old_keys.len() {
                                assert(old_keys.contains(keys[a]));
                            }
                        }
                        assert forall|x: Seq<char>| #[trigger] keys.contains(x) <==> (exists|j: int| 0 <= j < i + 1 && subs.key_seq()[j] == x && tv.watching().contains(x)) by {
                            if x == k {
                                assert(keys[old_keys.len() as int] == x);
                            }
                            if keys.contains(x) && x != k {
                                let a = choose|a: int| 0 <= a < keys.len() && keys[a] == x;
                                assert(old_keys[a] == x);
                                assert(old_keys.contains(x));
                            }
                            if old_keys.contains(x) {
                                let a = choose|a: int| 0 <= a < old_keys.len() && old_keys[a] == x;
                                assert(keys[a] == x);
                            }
                        }
                    }
                },
                None => {
                    proof {
                        assert(tv.suscriptores[k] == c@);
                    }
                },
            }
        } else {
            proof {
                assert(subs.key_seq().contains(k));
                assert(tv.suscriptores[k] == c@);
            }
        }
        i = i + 1;
    }
    proof {
        assert(keys.to_set() =~= tv.watching()) by {
            assert forall|x: Seq<char>| #[trigger] tv.watching().contains(x) implies keys.to_set().contains(x) by {
                assert(subs.key_seq().contains(x));
                let j = choose|j: int| 0 <= j < n && subs.key_seq()[j] == x;
                assert(keys.contains(x));
            }
        }
    }
    r
}

/// The texts of a sequence of strings.
pub open spec fn names_of(v: Seq<String>) -> Seq<Seq<char>> {
    v.map_values(|s: String| s@)
}

/// What `remove_client_from_topic` found.
#[derive(PartialEq, Eq, Structural, Clone, Copy, Debug)]
pub enum Detach {
    /// The subscriber stopped watching the topic.
    Detached,
    /// The topic has no subscriber under the id.
    UnknownSubscriber,
    /// There is no topic of that name.
    UnknownTopic,
}

/// A topic: the messages posted to it, oldest first, and its subscribers,
/// each under the trimmed id of its user.
pub struct Topic {
    mensajes: Vec<Message>,
    suscriptores: StrMap<Cliente>,
}

/// The model of a `Topic`.
pub struct TopicView {
    pub mensajes: Seq<MessageView>,
    pub suscriptores: Map<Seq<char>, ClienteView>,
}

impl View for Topic {
    type V = TopicView;

    closed spec fn view(&self) -> TopicView {
        TopicView {
            mensajes: self.mensajes@.map_values(|m: Message| m@),
            suscriptores: self.suscriptores@.map_values(|c: Cliente| c@),
        }
    }
}

/// A subscriber stored under `key` is consistent when it watches the topic
/// exactly when it has a stream, and when `key` is the trimmed id of its user.
pub open spec fn subscriber_consistent(key: Seq<char>, c: ClienteView) -> bool {
    &&& c.conectado == (c.stream is Some)
    &&& trim_spec(c.usuario.id) == key
}

/// The subscriber that a new subscription stores: not watching, no stream.
pub open spec fn new_subscriber(user: UserView) -> ClienteView {
    ClienteView { usuario: user, conectado: false, stream: None }
}

impl TopicView {
    /// A topic with no message and no subscriber.
    pub open spec fn empty() -> TopicView {
        TopicView { mensajes: Seq::empty(), suscriptores: Map::empty() }
    }

    /// Every subscriber is consistent.
    pub open spec fn consistent(self) -> bool {
        forall|k: Seq<char>| #[trigger]
            self.suscriptores.contains_key(k) ==> subscriber_consistent(k, self.suscriptores[k])
    }

    /// The keys of the subscribers that are watching the topic through a stream.
    pub open spec fn watching(self) -> Set<Seq<char>> {
        Set::new(
            |k: Seq<char>|
                self.suscriptores.contains_key(k) && self.suscriptores[k].conectado
                    && self.suscriptores[k].stream is Some,
        )
    }

    /// The topic with `subscriber` stored under `key`.
    pub open spec fn with_subscriber(self, key: Seq<char>, subscriber: ClienteView) -> TopicView {
        TopicView { mensajes: self.mensajes, suscriptores: self.suscriptores.insert(key, subscriber) }
    }

    /// The topic without the subscriber stored under `key`.
    pub open spec fn without_subscriber(self, key: Seq<char>) -> TopicView {
        TopicView { mensajes: self.mensajes, suscriptores: self.suscriptores.remove(key) }
    }

    /// The topic with `m` posted after its other messages.
    pub open spec fn with_message(self, m: MessageView) -> TopicView {
        TopicView { mensajes: self.mensajes.push(m), suscriptores: self.suscriptores }
    }
}

impl Topic {
    /// Well-formedness: the subscribers form a well-formed map and each of
    /// them is consistent.
    pub closed spec fn wf(&self) -> bool {
        &&& self.suscriptores.wf()
        &&& self@.consistent()
    }

    /// A topic with no message and no subscriber.
    pub fn new() -> (r: Self)
        ensures
            r.wf(),
            r@ == TopicView::empty(),
    {
        let r = Topic { mensajes: Vec::new(), suscriptores: StrMap::new() };
        proof {
            assert(r@.mensajes =~= Seq::<MessageView>::empty());
            assert(r@.suscriptores =~= Map::<Seq<char>, ClienteView>::empty());
        }
        r
    }
}

impl Default for Topic {
    fn default() -> (r: Self)
        ensures
            r.wf(),
            r@ == TopicView::empty(),
    {
        Topic::new()
    }
}

/// The state of the broker: its topics by name and its registered users by id.
pub struct BrokerTrait {
    topics: StrMap<Topic>,
    users: StrMap<User>,
}

/// The model of a `BrokerTrait`.
pub struct BrokerView {
    pub topics: Map<Seq<char>, TopicView>,
    pub users: Map<Seq<char>, UserView>,
}

impl View for BrokerTrait {
    type V = BrokerView;

    closed spec fn view(&self) -> BrokerView {
        BrokerView {
            topics: self.topics@.map_values(|t: Topic| t@),
            users: self.users@.map_values(|u: User| u@),
        }
    }
}

impl Default for BrokerTrait {
    fn default() -> (r: Self)
        ensures
            r.wf(),
            r@.topics == Map::<Seq<char>, TopicView>::empty(),
            r@.users == Map::<Seq<char>, UserView>::empty(),
    {
        BrokerTrait::new()
    }
}

impl BrokerView {
    /// Every subscriber of every topic is consistent, and every user is
    /// stored under its own id.
    pub open spec fn consistent(self) -> bool {
        &&& forall|t: Seq<char>| #[trigger] self.topics.contains_key(t) ==> self.topics[t].consistent()
        &&& forall|k: Seq<char>| #[trigger] self.users.contains_key(k) ==> self.users[k].id == k
    }

    /// The broker with an empty topic under `name`, in place of any topic
    /// that had that name.
    pub open spec fn after_insert_topic(self, name: Seq<char>) -> BrokerView {
        BrokerView { topics: self.topics.insert(name, TopicView::empty()), users: self.users }
    }

    /// The broker after `user` subscribes to `topic`: the topic stores a new
    /// subscriber for `user` under the trimmed id, in place of any other.
    pub open spec fn after_subscribe(self, topic: Seq<char>, user: UserView) -> BrokerView {
        BrokerView {
            topics: self.topics.insert(
                topic,
                self.topics[topic].with_subscriber(trim_spec(user.id), new_subscriber(user)),
            ),
            users: self.users,
        }
    }

    /// The broker after `user` registers.
    pub open spec fn after_register(self, user: UserView) -> BrokerView {
        BrokerView { topics: self.topics, users: self.users.insert(user.id, user) }
    }

    /// The broker after the subscriber under `key` starts watching `topic`
    /// through the stream `stream`.
    pub open spec fn after_attach(self, topic: Seq<char>, key: Seq<char>, stream: u64) -> BrokerView {
        let c = self.topics[topic].suscriptores[key];
        BrokerView {
            topics: self.topics.insert(
                topic,
                self.topics[topic].with_subscriber(
                    key,
                    ClienteView { usuario: c.usuario, conectado: true, stream: Some(stream) },
                ),
            ),
            users: self.users,
        }
    }

    /// The broker after the subscriber under `key` stops watching `topic`;
    /// unchanged where there is no such topic or subscriber.
    pub open spec fn after_detach(self, topic: Seq<char>, key: Seq<char>) -> BrokerView {
        if self.topics.contains_key(topic) && self.topics[topic].suscriptores.contains_key(key) {
            let c = self.topics[topic].suscriptores[key];
            BrokerView {
                topics: self.topics.insert(
                    topic,
                    self.topics[topic].with_subscriber(
                        key,
                        ClienteView { usuario: c.usuario, conectado: false, stream: None },
                    ),
                ),
                users: self.users,
            }
        } else {
            self
        }
    }

    /// The broker after `m` is posted to `topic`.
    pub open spec fn after_post(self, topic: Seq<char>, m: MessageView) -> BrokerView {
        BrokerView {
            topics: self.topics.insert(topic, self.topics[topic].with_message(m)),
            users: self.users,
        }
    }

    /// The broker after the client `id` disconnects: it is no longer a user,
    /// and no topic has a subscriber under `id`.
    pub open spec fn after_disconnect(self, id: Seq<char>) -> BrokerView {
        BrokerView {
            topics: self.topics.map_values(|t: TopicView| t.without_subscriber(id)),
            users: self.users.remove(id),
        }
    }

    /// The names of the topics that have a subscriber under `key`.
    pub open spec fn topics_of(self, key: Seq<char>) -> Set<Seq<char>> {
        Set::new(
            |t: Seq<char>| self.topics.contains_key(t) && self.topics[t].suscriptores.contains_key(key),
        )
    }
}

/// Every topic of `m` is well-formed.
spec fn topics_wf(m: Map<Seq<char>, Topic>) -> bool {
    forall|t: Seq<char>| #[trigger] m.contains_key(t) ==> m[t].wf()
}

/// Storing a well-formed topic under `name` keeps every topic well-formed.
proof fn lemma_topics_wf_after_insert(
    before: Map<Seq<char>, Topic>,
    after: Map<Seq<char>, Topic>,
    name: Seq<char>,
)
    requires
        topics_wf(before),
        after.contains_key(name),
        after[name].wf(),
        forall|n: Seq<char>| #[trigger] after.contains_key(n) && n != name ==> before.contains_key(n) && after[n] == before[n],
    ensures
        topics_wf(after),
{
    assert forall|n: Seq<char>| #[trigger] after.contains_key(n) implies after[n].wf() by {
        if n != name {
            assert(before[n].wf());
        }
    }
}

impl BrokerTrait {
    /// Well-formedness: the maps are well-formed, every topic is, and every
    /// user is stored under its own id.
    pub closed spec fn wf(&self) -> bool {
        &&& self.topics.wf()
        &&& self.users.wf()
        &&& topics_wf(self.topics@)
        &&& forall|k: Seq<char>| #[trigger] self.users@.contains_key(k) ==> self.users@[k].id@ == k
    }

    /// A well-formed broker is consistent.
    pub proof fn lemma_consistent(&self)
        requires
            self.wf(),
        ensures
            self@.consistent(),
    {
        assert forall|t: Seq<char>| #[trigger] self@.topics.contains_key(t) implies self@.topics[t].consistent() by {
            assert(self.topics@[t].wf());
        }
    }

    /// A broker with no topic and no user.
    pub fn new() -> (r: Self)
        ensures
            r.wf(),
            r@.topics == Map::<Seq<char>, TopicView>::empty(),
            r@.users == Map::<Seq<char>, UserView>::empty(),
    {
        let r = BrokerTrait { topics: StrMap::new(), users: StrMap::new() };
        proof {
            assert(r@.topics =~= Map::<Seq<char>, TopicView>::empty());
            assert(r@.users =~= Map::<Seq<char>, UserView>::empty());
        }
        r
    }

    /// Creates an empty topic under `name`, in place of any topic that had
    /// that name.
    pub fn insert_topic(&mut self, name: String)
        requires
            old(self).wf(),
        ensures
            final(self).wf(),
            final(self)@ == old(self)@.after_insert_topic(name@),
            final(self)@.topics.dom() == old(self)@.topics.dom().insert(name@),
            final(self)@.topics[name@].mensajes.len() == 0,
            final(self)@.topics[name@].suscriptores.dom() == Set::<Seq<char>>::empty(),
            forall|t: Seq<char>| t != name@ ==> #[trigger] final(self)@.topics[t] == old(self)@.topics[t],
            final(self)@.users == old(self)@.users,
    {
        let ghost k = name@;
        let _ = self.topics.insert(name, Topic::new());
        proof {
            assert(self@.topics =~= old(self)@.topics.insert(k, TopicView::empty()));
            assert(self@.topics.dom() =~= old(self)@.topics.dom().insert(k));
            assert(self@.topics[k].suscriptores.dom() =~= Set::<Seq<char>>::empty());
        }
    }

    /// A user asks to subscribe to `topic`. The user is stored as a new
    /// subscriber under its trimmed id, in place of any subscriber already
    /// there; the request is refused where the topic does not exist (and
    /// nothing changes) or where a subscriber was already there. On success
    /// the trimmed id is handed back.
    pub fn subscribe(&mut self, user: User, topic: &str) -> (r: Result<String, BrokerError>)
        requires
            old(self).wf(),
        ensures
            final(self).wf(),
            !old(self)@.topics.contains_key(topic@) ==> {
                &&& refused(r, ErrorCode::InvalidArgument, "No existe el topic"@)
                &&& final(self)@ == old(self)@
            },
            old(self)@.topics.contains_key(topic@) ==> {
                &&& final(self)@ == old(self)@.after_subscribe(topic@, user@)
                &&& final(self)@.topics[topic@].suscriptores.contains_key(trim_spec(user@.id))
                &&& final(self)@.topics[topic@].suscriptores[trim_spec(user@.id)] == new_subscriber(user@)
                &&& forall|k: Seq<char>| k != trim_spec(user@.id) && old(self)@.topics[topic@].suscriptores.contains_key(k)
                    ==> #[trigger] final(self)@.topics[topic@].suscriptores.contains_key(k)
                    && final(self)@.topics[topic@].suscriptores[k] == old(self)@.topics[topic@].suscriptores[k]
                &&& final(self)@.users == old(self)@.users
                &&& old(self)@.topics[topic@].suscriptores.contains_key(trim_spec(user@.id))
                    ==> refused(
                    r,
                    ErrorCode::AlreadyExists,
                    "El usuario se encuentra ya suscrito al topic"@,
                )
                &&& !old(self)@.topics[topic@].suscriptores.contains_key(trim_spec(user@.id))
                    ==> (r matches Ok(key) && key@ == trim_spec(user@.id))
            },
    {
        match self.topics.find(topic) {
            None => refuse(ErrorCode::InvalidArgument, "No existe el topic".to_owned()),
            Some(i) => {
                let ghost old_b = *self;
                let key = trimmed(user.id.as_str());
                let ghost uv = user@;
                let mut t = self.topics.replace_at(i, Topic::new());
                let cliente = Cliente { usuario: user, conectado: false, stream: None };
                let prev = t.suscriptores.insert(key.clone(), cliente);
                proof {
                    assert(t@.suscriptores =~= old_b@.topics[topic@].suscriptores.insert(
                        key@,
                        new_subscriber(uv),
                    ));
                    assert(t@.mensajes == old_b@.topics[topic@].mensajes);
                    assert forall|k: Seq<char>| #[trigger] t@.suscriptores.contains_key(k) implies subscriber_consistent(k, t@.suscriptores[k]) by {
                        if k != key@ {
                            assert(old_b.topics@[topic@].wf());
                            assert(old_b@.topics[topic@].suscriptores.contains_key(k));
                        }
                    }
                }
                let _ = self.topics.replace_at(i, t);
                proof {
                    assert(self@.topics =~= old_b@.topics.insert(
                        topic@,
                        old_b@.topics[topic@].with_subscriber(key@, new_subscriber(uv)),
                    ));
                    lemma_topics_wf_after_insert(old_b.topics@, self.topics@, topic@);
                }
                match prev {
                    Some(_) => refuse(
                        ErrorCode::AlreadyExists,
                        "El usuario se encuentra ya suscrito al topic".to_owned(),
                    ),
                    None => Ok(key),
                }
            },
        }
    }

    /// A user asks to register. The request is refused where no user is
    /// given, where its id or its name is only white space, and where a user
    /// with that id is registered already; in each of these cases nothing
    /// changes. Otherwise the user is stored under its id.
    pub fn register(&mut self, usuario: Option<User>) -> (r: Result<(), BrokerError>)
        requires
            old(self).wf(),
        ensures
            final(self).wf(),
            match usuario {
                None => refused(r, ErrorCode::InvalidArgument, "Datos incompletos"@)
                    && final(self)@ == old(self)@,
                Some(u) => if trim_spec(u@.id).len() == 0 || trim_spec(u@.nombre).len() == 0 {
                    refused(r, ErrorCode::InvalidArgument, "No puede ser vacio"@)
                        && final(self)@ == old(self)@
                } else if old(self)@.users.contains_key(u@.id) {
                    refused(r, ErrorCode::AlreadyExists, "Usuario existente"@)
                        && final(self)@ == old(self)@
                } else {
                    r is Ok && final(self)@ == old(self)@.after_register(u@)
                        && final(self)@.users == old(self)@.users.insert(u@.id, u@)
                        && final(self)@.topics == old(self)@.topics
                },
            },
    {
        let u = match usuario {
            Some(u) => u,
            None => return refuse(ErrorCode::InvalidArgument, "Datos incompletos".to_owned()),
        };
        if trim_str(u.id.as_str()).is_empty() || trim_str(u.nombre.as_str()).is_empty() {
            return refuse(ErrorCode::InvalidArgument, "No puede ser vacio".to_owned());
        }
        if self.users.contains_key(u.id.as_str()) {
            return refuse(ErrorCode::AlreadyExists, "Usuario existente".to_owned());
        }
        let ghost uv = u@;
        let id = u.id.clone();
        let _ = self.users.insert(id, u);
        proof {
            assert(self@.users =~= old(self)@.users.insert(uv.id, uv));
        }
        Ok(())
    }

    /// The subscriber under `client_id` stops watching `topic_name`: it is no
    /// longer connected and has no stream. Says whether the topic or the
    /// subscriber was missing, in which case nothing changes.
    pub fn remove_client_from_topic(&mut self, topic_name: &str, client_id: &str) -> (r: Detach)
        requires
            old(self).wf(),
        ensures
            final(self).wf(),
            final(self)@ == old(self)@.after_detach(topic_name@, client_id@),
            final(self)@.topics.dom() == old(self)@.topics.dom(),
            final(self)@.users == old(self)@.users,
            forall|t: Seq<char>, k: Seq<char>|
                (t != topic_name@ || k != client_id@) && old(self)@.topics.contains_key(t)
                    && old(self)@.topics[t].suscriptores.contains_key(k) ==> {
                    &&& #[trigger] final(self)@.topics[t].suscriptores.contains_key(k)
                    &&& final(self)@.topics[t].suscriptores[k] == old(self)@.topics[t].suscriptores[k]
                },
            r == Detach::Detached ==> {
                &&& final(self)@.topics[topic_name@].suscriptores[client_id@].conectado == false
                &&& final(self)@.topics[topic_name@].suscriptores[client_id@].stream is None
                &&& final(self)@.topics[topic_name@].suscriptores[client_id@].usuario
                    == old(self)@.topics[topic_name@].suscriptores[client_id@].usuario
                &&& final(self)@.topics[topic_name@].mensajes == old(self)@.topics[topic_name@].mensajes
            },
            r == (if !old(self)@.topics.contains_key(topic_name@) {
                Detach::UnknownTopic
            } else if !old(self)@.topics[topic_name@].suscriptores.contains_key(client_id@) {
                Detach::UnknownSubscriber
            } else {
                Detach::Detached
            }),
    {
        let i = match self.topics.find(topic_name) {
            Some(i) => i,
            None => return Detach::UnknownTopic,
        };
        proof {
            self.topics.lemma_view();
            assert(self.topics@[topic_name@].wf());
        }
        if !self.topics.value_at(i).suscriptores.contains_key(client_id) {
            proof {
                assert(self.topics.value_seq()[i as int] == self.topics@[topic_name@]);
            }
            return Detach::UnknownSubscriber;
        }
        let ghost old_b = *self;
        let mut t = self.topics.replace_at(i, Topic::new());
        proof {
            assert(old_b.topics@[topic_name@].wf());
        }
        let j = t.suscriptores.find(client_id).unwrap();
        let mut c = t.suscriptores.replace_at(j, Cliente {
            usuario: User { id: String::new(), nombre: String::new() },
            conectado: false,
            stream: None,
        });
        c.conectado = false;
        c.stream = None;
        let ghost cv = c@;
        let _ = t.suscriptores.replace_at(j, c);
        proof {
            assert(t@.suscriptores =~= old_b@.topics[topic_name@].suscriptores.insert(client_id@, cv));
            assert forall|k: Seq<char>| #[trigger] t@.suscriptores.contains_key(k) implies subscriber_consistent(k, t@.suscriptores[k]) by {
                assert(old_b@.topics[topic_name@].suscriptores.contains_key(k));
            }
        }
        let _ = self.topics.replace_at(i, t);
        proof {
            assert(self@.topics =~= old_b@.topics.insert(
                topic_name@,
                old_b@.topics[topic_name@].with_subscriber(client_id@, cv),
            ));
            lemma_topics_wf_after_insert(old_b.topics@, self.topics@, topic_name@);
        }
        Detach::Detached
    }

    /// A subscriber asks to watch `topic` through the stream `stream`. The
    /// subscriber is looked up under the trimmed `request_id`. The request is
    /// refused, and nothing changes, where the topic does not exist or where
    /// it has no such subscriber. Otherwise the subscriber is connected with
    /// that stream, and the messages already posted to the topic are handed
    /// back, oldest first.
    pub fn get_messages(&mut self, request_id: &str, topic: &str, stream: u64) -> (r: Result<
        Vec<Message>,
        BrokerError,
    >)
        requires
            old(self).wf(),
        ensures
            final(self).wf(),
            !old(self)@.topics.contains_key(topic@) ==> {
                &&& refused(r, ErrorCode::NotFound, "No existe el topic"@)
                &&& final(self)@ == old(self)@
            },
            old(self)@.topics.contains_key(topic@) && !old(self)@.topics[topic@].suscriptores.contains_key(
                trim_spec(request_id@),
            ) ==> {
                &&& refused(
                    r,
                    ErrorCode::PermissionDenied,
                    "El usuario "@ + request_id@ + ", no se encuentra suscrito al topic"@,
                )
                &&& final(self)@ == old(self)@
            },
            old(self)@.topics.contains_key(topic@) && old(self)@.topics[topic@].suscriptores.contains_key(
                trim_spec(request_id@),
            ) ==> {
                &&& r matches Ok(backlog) && backlog@.map_values(|m: Message| m@)
                    == old(self)@.topics[topic@].mensajes
                &&& final(self)@ == old(self)@.after_attach(topic@, trim_spec(request_id@), stream)
                &&& final(self)@.topics[topic@].suscriptores[trim_spec(request_id@)].conectado
                &&& final(self)@.topics[topic@].suscriptores[trim_spec(request_id@)].stream == Some(stream)
                &&& final(self)@.topics[topic@].mensajes == old(self)@.topics[topic@].mensajes
                &&& forall|t: Seq<char>, k: Seq<char>|
                    (t != topic@ || k != trim_spec(request_id@)) && old(self)@.topics.contains_key(t)
                        && old(self)@.topics[t].suscriptores.contains_key(k) ==> {
                        &&& #[trigger] final(self)@.topics[t].suscriptores.contains_key(k)
                        &&& final(self)@.topics[t].suscriptores[k] == old(self)@.topics[t].suscriptores[k]
                    }
                &&& final(self)@.users == old(self)@.users
            },
    {
        let i = match self.topics.find(topic) {
            Some(i) => i,
            None => return refuse(ErrorCode::NotFound, "No existe el topic".to_owned()),
        };
        proof {
            self.topics.lemma_view();
            assert(self.topics@[topic@].wf());
        }
        let key = trimmed(request_id);
        if !self.topics.value_at(i).suscriptores.contains_key(key.as_str()) {
            proof {
                assert(self.topics.value_seq()[i as int] == self.topics@[topic@]);
            }
            let mut message = "El usuario ".to_owned();
            message.append(request_id);
            message.append(", no se encuentra suscrito al topic");
            return refuse(ErrorCode::PermissionDenied, message);
        }
        let ghost old_b = *self;
        let mut t = self.topics.replace_at(i, Topic::new());
        proof {
            assert(old_b.topics@[topic@].wf());
        }
        let backlog = copy_messages(&t.mensajes);
        let j = t.suscriptores.find(key.as_str()).unwrap();
        let mut c = t.suscriptores.replace_at(j, Cliente {
            usuario: User { id: String::new(), nombre: String::new() },
            conectado: false,
            stream: None,
        });
        c.stream = Some(stream);
        c.conectado = true;
        let ghost cv = c@;
        let _ = t.suscriptores.replace_at(j, c);
        proof {
            assert(t@.suscriptores =~= old_b@.topics[topic@].suscriptores.insert(key@, cv));
            assert forall|k: Seq<char>| #[trigger] t@.suscriptores.contains_key(k) implies subscriber_consistent(k, t@.suscriptores[k]) by {
                assert(old_b@.topics[topic@].suscriptores.contains_key(k));
            }
        }
        let _ = self.topics.replace_at(i, t);
        proof {
            assert(self@.topics =~= old_b@.topics.insert(
                topic@,
                old_b@.topics[topic@].with_subscriber(key@, cv),
            ));
            lemma_topics_wf_after_insert(old_b.topics@, self.topics@, topic@);
        }
        Ok(backlog)
    }

    /// A user posts `mensaje` to `topic`. The author is looked up among the
    /// topic's subscribers under the trimmed id of the message. The request
    /// is refused, and nothing changes, where the topic does not exist or the
    /// author is not subscribed to it. Otherwise the message is appended to
    /// the topic, and the streams of the subscribers that watch the topic are
    /// handed back, one per such subscriber, to carry the message to them.
    pub fn post_message(&mut self, topic: &str, mensaje: Message) -> (r: Result<Vec<u64>, BrokerError>)
        requires
            old(self).wf(),
        ensures
            final(self).wf(),
            !old(self)@.topics.contains_key(topic@) ==> {
                &&& refused(r, ErrorCode::NotFound, "El topic no existe"@)
                &&& final(self)@ == old(self)@
            },
            old(self)@.topics.contains_key(topic@) && !old(self)@.topics[topic@].suscriptores.contains_key(
                trim_spec(mensaje@.id),
            ) ==> {
                &&& refused(
                    r,
                    ErrorCode::PermissionDenied,
                    "El usuario no esta suscrito al topic. Debe suscribirse para poder enviar mensajes"@,
                )
                &&& final(self)@ == old(self)@
            },
            old(self)@.topics.contains_key(topic@) && old(self)@.topics[topic@].suscriptores.contains_key(
                trim_spec(mensaje@.id),
            ) ==> {
                &&& final(self)@ == old(self)@.after_post(topic@, mensaje@)
                &&& final(self)@.topics.dom() == old(self)@.topics.dom()
                &&& final(self)@.topics[topic@].mensajes == old(self)@.topics[topic@].mensajes.push(mensaje@)
                &&& final(self)@.topics[topic@].suscriptores == old(self)@.topics[topic@].suscriptores
                &&& forall|t: Seq<char>| t != topic@ ==> #[trigger] final(self)@.topics[t] == old(self)@.topics[t]
                &&& final(self)@.users == old(self)@.users
                &&& r matches Ok(streams) && delivers_to(
                    old(self)@.topics[topic@],
                    streams@,
                )
            },
    {
        let i = match self.topics.find(topic) {
            Some(i) => i,
            None => return refuse(ErrorCode::NotFound, "El topic no existe".to_owned()),
        };
        proof {
            self.topics.lemma_view();
            assert(self.topics@[topic@].wf());
        }
        let key = trimmed(mensaje.id.as_str());
        if !self.topics.value_at(i).suscriptores.contains_key(key.as_str()) {
            proof {
                assert(self.topics.value_seq()[i as int] == self.topics@[topic@]);
            }
            return refuse(
                ErrorCode::PermissionDenied,
                "El usuario no esta suscrito al topic. Debe suscribirse para poder enviar mensajes".to_owned(),
            );
        }
        let ghost old_b = *self;
        let ghost mv = mensaje@;
        let mut t = self.topics.replace_at(i, Topic::new());
        proof {
            assert(old_b.topics@[topic@].wf());
        }
        t.mensajes.push(mensaje);
        let streams = watching_streams(&t.suscriptores);
        proof {
            assert(t@.mensajes =~= old_b@.topics[topic@].mensajes.push(mv));
            assert(t@.suscriptores == old_b@.topics[topic@].suscriptores);
        }
        let _ = self.topics.replace_at(i, t);
        proof {
            assert(self@.topics =~= old_b@.topics.insert(
                topic@,
                old_b@.topics[topic@].with_message(mv),
            ));
            lemma_topics_wf_after_insert(old_b.topics@, self.topics@, topic@);
        }
        Ok(streams)
    }

    /// The names of all topics, each once, in some order.
    pub fn get_all_topics(&self) -> (r: Vec<String>)
        requires
            self.wf(),
        ensures
            names_of(r@).no_duplicates(),
            names_of(r@).to_set() == self@.topics.dom(),
    {
        self.topic_names(None)
    }

    /// The names of the topics that have a subscriber under the trimmed
    /// `id`, each once, in some order.
    pub fn get_topics(&self, id: &str) -> (r: Vec<String>)
        requires
            self.wf(),
        ensures
            names_of(r@).no_duplicates(),
            names_of(r@).to_set() == self@.topics_of(trim_spec(id@)),
            forall|t: Seq<char>| #[trigger] names_of(r@).contains(t) <==> (self@.topics.contains_key(t)
                && self@.topics[t].suscriptores.contains_key(trim_spec(id@))),
    {
        let key = trimmed(id);
        let r = self.topic_names(Some(key.as_str()));
        proof {
            assert(names_of(r@).to_set() =~= self@.topics_of(trim_spec(id@)));
        }
        r
    }

    /// The names of the topics, each once, that have a subscriber under
    /// `key`, or of all topics where no key is given.
    fn topic_names(&self, key: Option<&str>) -> (r: Vec<String>)
        requires
            self.wf(),
        ensures
            names_of(r@).no_duplicates(),
            forall|t: Seq<char>| #[trigger] names_of(r@).contains(t) <==> {
                &&& self@.topics.contains_key(t)
                &&& (key matches Some(k) ==> self@.topics[t].suscriptores.contains_key(k@))
            },
            key is None ==> names_of(r@).to_set() == self@.topics.dom(),
    {
        proof {
            self.topics.lemma_view();
        }
        let mut r: Vec<String> = Vec::new();
        let n = self.topics.len();
        let mut i: usize = 0;
        while i < n
            invariant
                self.wf(),
                n == self.topics.key_seq().len(),
                n == self.topics.value_seq().len(),
                i <= n,
                self.topics.key_seq().no_duplicates(),
                forall|j: int| 0 <= j < n ==> #[trigger] self.topics@[self.topics.key_seq()[j]] == self.topics.value_seq()[j],
                forall|k: Seq<char>| #[trigger] self.topics@.contains_key(k) <==> self.topics.key_seq().contains(k),
                names_of(r@).no_duplicates(),
                forall|t: Seq<char>| #[trigger] names_of(r@).contains(t) <==> (exists|j: int| {
                    &&& 0 <= j < i
                    &&& self.topics.key_seq()[j] == t
                    &&& (key matches Some(k) ==> self@.topics[t].suscriptores.contains_key(k@))
                }),
            decreases n - i,
        {
            let ghost name = self.topics.key_seq()[i as int];
            proof {
                assert(self.topics.key_seq().contains(name));
                assert(self.topics@.contains_key(name));
                assert(self.topics@[name].wf());
                assert(self@.topics[name] == self.topics.value_seq()[i as int]@);
            }
            let wanted = match key {
                Some(k) => self.topics.value_at(i).suscriptores.contains_key(k),
                None => true,
            };
            if wanted {
                let ghost old_names = names_of(r@);
                proof {
                    assert(!old_names.contains(name)) by {
                        if old_names.contains(name) {
                            let j = choose|j: int| {
                                &&& 0 <= j < i
                                &&& self.topics.key_seq()[j] == name
                                &&& (key matches Some(k) ==> self@.topics[name].suscriptores.contains_key(k@))
                            };
                            assert(self.topics.key_seq()[j] == self.topics.key_seq()[i as int]);
                        }
                    }
                }
                r.push(self.topics.key_at(i).clone());
                proof {
                    let names = names_of(r@);
                    assert(names =~= old_names.push(name));
                    assert forall|a: int, b: int| 0 <= a < names.len() && 0 <= b < names.len() && a != b implies names[a] != names[b] by {
                        if a == old_names.len() {
                            assert(old_names.contains(names[b]));
                        } else if b == old_names.len() {
                            assert(old_names.contains(names[a]));
                        }
                    }
                    assert forall|t: Seq<char>| #[trigger] names.contains(t) <==> (exists|j: int| {
                        &&& 0 <= j < i + 1
                        &&& self.topics.key_seq()[j] == t
                        &&& (key matches Some(k) ==> self@.topics[t].suscriptores.contains_key(k@))
                    }) by {
                        if t == name {
                            assert(names[old_names.len() as int] == t);
                        }
                        if names.contains(t) && t != name {
                            let a = choose|a: int| 0 <= a < names.len() && names[a] == t;
                            assert(old_names[a] == t);
                            assert(old_names.contains(t));
                        }
                        if old_names.contains(t) {
                            let a = choose|a: int| 0 <= a < old_names.len() && old_names[a] == t;
                            assert(names[a] == t);
                        }
                    }
                }
            }
            i = i + 1;
        }
        proof {
            let names = names_of(r@);
            assert forall|t: Seq<char>| #[trigger] names.contains(t) <==> {
                &&& self@.topics.contains_key(t)
                &&& (key matches Some(k) ==> self@.topics[t].suscriptores.contains_key(k@))
            } by {
                if self@.topics.contains_key(t) {
                    assert(self.topics.key_seq().contains(t));
                }
            }
            if key is None {
                assert(names.to_set() =~= self@.topics.dom());
            }
        }
        r
    }

    /// The client `client_id` is gone: it is no longer a registered user,
    /// and every topic drops its subscriber under `client_id`.
    pub fn client_disconnected(&mut self, client_id: &str)
        requires
            old(self).wf(),
        ensures
            final(self).wf(),
            final(self)@ == old(self)@.after_disconnect(client_id@),
            final(self)@.topics.dom() == old(self)@.topics.dom(),
            !final(self)@.users.contains_key(client_id@),
            forall|k: Seq<char>| k != client_id@ && old(self)@.users.contains_key(k) ==> #[trigger] final(self)@.users.contains_key(k)
                && final(self)@.users[k] == old(self)@.users[k],
            forall|t: Seq<char>| #[trigger] final(self)@.topics.contains_key(t) ==> {
                &&& !final(self)@.topics[t].suscriptores.contains_key(client_id@)
                &&& final(self)@.topics[t].mensajes == old(self)@.topics[t].mensajes
                &&& forall|k: Seq<char>| k != client_id@ && old(self)@.topics[t].suscriptores.contains_key(k)
                    ==> #[trigger] final(self)@.topics[t].suscriptores.contains_key(k)
                    && final(self)@.topics[t].suscriptores[k] == old(self)@.topics[t].suscriptores[k]
            },
    {
        let ghost old_b = *self;
        proof {
            old_b.topics.lemma_view();
            assert forall|j: int| 0 <= j < old_b.topics.value_seq().len() implies #[trigger] old_b.topics.value_seq()[j].wf() by {
                assert(old_b.topics.key_seq().contains(old_b.topics.key_seq()[j]));
                assert(old_b.topics@.contains_key(old_b.topics.key_seq()[j]));
            }
        }
        let _ = self.users.remove(client_id);
        let n = self.topics.len();
        let mut i: usize = 0;
        while i < n
            invariant
                self.topics.wf(),
                self.users.wf(),
                self.users@ == old_b.users@.remove(client_id@),
                self.topics.key_seq() == old_b.topics.key_seq(),
                n == self.topics.key_seq().len(),
                n == self.topics.value_seq().len(),
                n == old_b.topics.value_seq().len(),
                i <= n,
                forall|j: int| 0 <= j < n ==> #[trigger] self.topics.value_seq()[j].wf(),
                forall|j: int| 0 <= j < i ==> #[trigger] self.topics.value_seq()[j]@
                    == old_b.topics.value_seq()[j]@.without_subscriber(client_id@),
                forall|j: int| i <= j < n ==> #[trigger] self.topics.value_seq()[j]
                    == old_b.topics.value_seq()[j],
            decreases n - i,
        {
            let ghost before = self.topics.value_seq();
            let mut t = self.topics.replace_at(i, Topic::new());
            let ghost tv = t@;
            proof {
                assert(before[i as int].wf());
            }
            let _ = t.suscriptores.remove(client_id);
            proof {
                assert(t@.suscriptores =~= tv.suscriptores.remove(client_id@));
                assert(t@ == tv.without_subscriber(client_id@));
                assert(before[i as int].wf());
                assert forall|k: Seq<char>| #[trigger] t@.suscriptores.contains_key(k) implies subscriber_consistent(k, t@.suscriptores[k]) by {
                    assert(tv.suscriptores.contains_key(k));
                }
            }
            let _ = self.topics.replace_at(i, t);
            i = i + 1;
        }
        proof {
            self.topics.lemma_view();
            assert forall|t: Seq<char>| #[trigger] self.topics@.contains_key(t) implies self.topics@[t].wf() by {
                let j = self.topics.key_seq().index_of(t);
                assert(self.topics.key_seq().contains(t));
                crate::strmap::lemma_index_of_distinct(self.topics.key_seq(), j);
            }
            assert forall|t: Seq<char>| #[trigger] self@.topics.contains_key(t) implies self@.topics[t]
                == old_b@.topics[t].without_subscriber(client_id@) by {
                assert(self.topics.key_seq().contains(t));
                let j = self.topics.key_seq().index_of(t);
                crate::strmap::lemma_index_of_distinct(self.topics.key_seq(), j);
                assert(old_b.topics@[t] == old_b.topics.value_seq()[j]);
            }
            assert forall|t: Seq<char>| #[trigger] old_b@.topics.contains_key(t) implies self@.topics.contains_key(t) by {
                assert(old_b.topics.key_seq().contains(t));
            }
            assert(self@.topics =~= old_b@.topics.map_values(
                |t: TopicView| t.without_subscriber(client_id@),
            ));
            assert(self@.users =~= old_b@.users.remove(client_id@));
        }
    }

    /// The stream through which the subscriber under `key` watches `topic`,
    /// if there is such a topic and subscriber and it has a stream.
    pub fn stream_of(&self, topic: &str, key: &str) -> (r: Option<u64>)
        requires
            self.wf(),
        ensures
            r == (if self@.topics.contains_key(topic@) && self@.topics[topic@].suscriptores.contains_key(key@) {
                self@.topics[topic@].suscriptores[key@].stream
            } else {
                None::<u64>
            }),
    {
        let i = match self.topics.find(topic) {
            Some(i) => i,
            None => return None,
        };
        proof {
            self.topics.lemma_view();
            assert(self.topics@[topic@].wf());
        }
        let t = self.topics.value_at(i);
        match t.suscriptores.find(key) {
            Some(j) => {
                proof {
                    t.suscriptores.lemma_view();
                }
                t.suscriptores.value_at(j).stream
            },
            None => None,
        }
    }
}

} // verus!
