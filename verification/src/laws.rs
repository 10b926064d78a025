use vstd::prelude::*;
use crate::broker::{BrokerView, MessageView, TopicView, UserView, subscriber_consistent};
use crate::text::trim_spec;

verus! {

/// Subscribing keeps the broker consistent: the new subscriber is stored
/// under the trimmed id of its user and neither watches nor has a stream.
pub proof fn law_subscribe_keeps_consistency(b: BrokerView, topic: Seq<char>, user: UserView)
    requires
        b.consistent(),
        b.topics.contains_key(topic),
    ensures
        b.after_subscribe(topic, user).consistent(),
{
    let a = b.after_subscribe(topic, user);
    assert forall|t: Seq<char>| #[trigger] a.topics.contains_key(t) implies a.topics[t].consistent() by {
        if t == topic {
            assert forall|k: Seq<char>| #[trigger] a.topics[t].suscriptores.contains_key(k) implies subscriber_consistent(k, a.topics[t].suscriptores[k]) by {
                if k != trim_spec(user.id) {
                    assert(b.topics[t].suscriptores.contains_key(k));
                }
            }
        }
    }
}

/// Registering keeps the broker consistent: every user stays under its id.
pub proof fn law_register_keeps_consistency(b: BrokerView, user: UserView)
    requires
        b.consistent(),
    ensures
        b.after_register(user).consistent(),
{
}

/// Starting to watch a topic keeps the broker consistent: the subscriber is
/// connected and has a stream.
pub proof fn law_attach_keeps_consistency(b: BrokerView, topic: Seq<char>, key: Seq<char>, stream: u64)
    requires
        b.consistent(),
        b.topics.contains_key(topic),
        b.topics[topic].suscriptores.contains_key(key),
    ensures
        b.after_attach(topic, key, stream).consistent(),
{
    let a = b.after_attach(topic, key, stream);
    assert forall|t: Seq<char>| #[trigger] a.topics.contains_key(t) implies a.topics[t].consistent() by {
        if t == topic {
            assert forall|k: Seq<char>| #[trigger] a.topics[t].suscriptores.contains_key(k) implies subscriber_consistent(k, a.topics[t].suscriptores[k]) by {
                assert(b.topics[t].suscriptores.contains_key(k));
            }
        }
    }
}

/// Stopping to watch a topic keeps the broker consistent: the subscriber is
/// disconnected and has no stream.
pub proof fn law_detach_keeps_consistency(b: BrokerView, topic: Seq<char>, key: Seq<char>)
    requires
        b.consistent(),
    ensures
        b.after_detach(topic, key).consistent(),
{
    let a = b.after_detach(topic, key);
    assert forall|t: Seq<char>| #[trigger] a.topics.contains_key(t) implies a.topics[t].consistent() by {
        if t == topic && b.topics.contains_key(topic) && b.topics[topic].suscriptores.contains_key(key) {
            assert forall|k: Seq<char>| #[trigger] a.topics[t].suscriptores.contains_key(k) implies subscriber_consistent(k, a.topics[t].suscriptores[k]) by {
                assert(b.topics[t].suscriptores.contains_key(k));
            }
        }
    }
}

/// Posting keeps the broker consistent.
pub proof fn law_post_keeps_consistency(b: BrokerView, topic: Seq<char>, m: MessageView)
    requires
        b.consistent(),
        b.topics.contains_key(topic),
    ensures
        b.after_post(topic, m).consistent(),
{
    let a = b.after_post(topic, m);
    assert forall|t: Seq<char>| #[trigger] a.topics.contains_key(t) implies a.topics[t].consistent() by {
        if t == topic {
            assert forall|k: Seq<char>| #[trigger] a.topics[t].suscriptores.contains_key(k) implies subscriber_consistent(k, a.topics[t].suscriptores[k]) by {
                assert(b.topics[t].suscriptores.contains_key(k));
            }
        }
    }
}

/// A client's disconnection keeps the broker consistent.
pub proof fn law_disconnect_keeps_consistency(b: BrokerView, id: Seq<char>)
    requires
        b.consistent(),
    ensures
        b.after_disconnect(id).consistent(),
{
    let a = b.after_disconnect(id);
    assert forall|t: Seq<char>| #[trigger] a.topics.contains_key(t) implies a.topics[t].consistent() by {
        assert forall|k: Seq<char>| #[trigger] a.topics[t].suscriptores.contains_key(k) implies subscriber_consistent(k, a.topics[t].suscriptores[k]) by {
            assert(b.topics.contains_key(t));
            assert(b.topics[t].suscriptores.contains_key(k));
        }
    }
}

/// Creating a topic keeps the broker consistent.
pub proof fn law_insert_topic_keeps_consistency(b: BrokerView, name: Seq<char>)
    requires
        b.consistent(),
    ensures
        b.after_insert_topic(name).consistent(),
{
}

/// Only creating a topic changes which topics exist: subscribing,
/// registering, watching, stopping to watch, posting and disconnecting keep
/// the set of topic names.
pub proof fn law_topic_names_are_kept(
    b: BrokerView,
    topic: Seq<char>,
    key: Seq<char>,
    user: UserView,
    m: MessageView,
    stream: u64,
)
    requires
        b.topics.contains_key(topic),
    ensures
        b.after_subscribe(topic, user).topics.dom() == b.topics.dom(),
        b.after_register(user).topics.dom() == b.topics.dom(),
        b.after_attach(topic, key, stream).topics.dom() == b.topics.dom(),
        b.after_detach(topic, key).topics.dom() == b.topics.dom(),
        b.after_post(topic, m).topics.dom() == b.topics.dom(),
        b.after_disconnect(key).topics.dom() == b.topics.dom(),
{
    assert(b.after_subscribe(topic, user).topics.dom() =~= b.topics.dom());
    assert(b.after_attach(topic, key, stream).topics.dom() =~= b.topics.dom());
    assert(b.after_detach(topic, key).topics.dom() =~= b.topics.dom());
    assert(b.after_post(topic, m).topics.dom() =~= b.topics.dom());
    assert(b.after_disconnect(key).topics.dom() =~= b.topics.dom());
}

/// The history of a topic only grows, and only by posting: posting appends
/// the message after the others, and every other operation leaves every
/// topic's messages as they were.
pub proof fn law_history_only_grows(
    b: BrokerView,
    topic: Seq<char>,
    other: Seq<char>,
    key: Seq<char>,
    user: UserView,
    m: MessageView,
    stream: u64,
)
    requires
        b.topics.contains_key(topic),
        b.topics.contains_key(other),
    ensures
        b.after_post(topic, m).topics[topic].mensajes == b.topics[topic].mensajes.push(m),
        other != topic ==> b.after_post(topic, m).topics[other].mensajes == b.topics[other].mensajes,
        b.after_subscribe(topic, user).topics[other].mensajes == b.topics[other].mensajes,
        b.after_register(user).topics[other].mensajes == b.topics[other].mensajes,
        b.after_attach(topic, key, stream).topics[other].mensajes == b.topics[other].mensajes,
        b.after_detach(topic, key).topics[other].mensajes == b.topics[other].mensajes,
        b.after_disconnect(key).topics[other].mensajes == b.topics[other].mensajes,
{
}

/// What one reads back of a subscription: after a user subscribes to an
/// existing topic, the topics listed for that user's id include it, and a
/// second subscription of the same user to it finds the subscriber there
/// (and is refused).
pub proof fn law_subscription_is_listed(b: BrokerView, topic: Seq<char>, user: UserView)
    requires
        b.topics.contains_key(topic),
    ensures
        b.after_subscribe(topic, user).topics_of(trim_spec(user.id)).contains(topic),
        b.after_subscribe(topic, user).topics[topic].suscriptores.contains_key(trim_spec(user.id)),
{
}

/// Subscribing to one topic changes no other topic's listing: a key is
/// subscribed to the same topics as before, plus the one subscribed to.
pub proof fn law_subscription_adds_one_topic(b: BrokerView, topic: Seq<char>, user: UserView)
    requires
        b.topics.contains_key(topic),
    ensures
        b.after_subscribe(topic, user).topics_of(trim_spec(user.id)) == b.topics_of(
            trim_spec(user.id),
        ).insert(topic),
{
    assert(b.after_subscribe(topic, user).topics_of(trim_spec(user.id)) =~= b.topics_of(
        trim_spec(user.id),
    ).insert(topic));
}

/// What one reads back of a post: the topic's messages, which a watcher is
/// handed when it starts to watch, end with the posted message, after all
/// that were there before.
pub proof fn law_post_is_read_back(b: BrokerView, topic: Seq<char>, m: MessageView)
    requires
        b.topics.contains_key(topic),
    ensures
        b.after_post(topic, m).topics[topic].mensajes.last() == m,
        b.after_post(topic, m).topics[topic].mensajes.drop_last() == b.topics[topic].mensajes,
{
    assert(b.after_post(topic, m).topics[topic].mensajes.drop_last() =~= b.topics[topic].mensajes);
}

/// A subscriber that starts watching a topic through a stream is among those
/// whom the next post to the topic is delivered to, through that stream;
/// one that stops watching is not.
pub proof fn law_watchers_receive_posts(
    b: BrokerView,
    topic: Seq<char>,
    key: Seq<char>,
    stream: u64,
)
    requires
        b.topics.contains_key(topic),
        b.topics[topic].suscriptores.contains_key(key),
    ensures
        b.after_attach(topic, key, stream).topics[topic].watching().contains(key),
        b.after_attach(topic, key, stream).topics[topic].suscriptores[key].stream == Some(stream),
        !b.after_detach(topic, key).topics[topic].watching().contains(key),
{
}

/// A disconnected client is gone: it is no longer a registered user, and no
/// topic is listed for its id. This holds where the id is already trimmed,
/// since topics list their subscribers under trimmed ids.
pub proof fn law_disconnected_client_is_gone(b: BrokerView, id: Seq<char>)
    requires
        trim_spec(id) == id,
    ensures
        !b.after_disconnect(id).users.contains_key(id),
        b.after_disconnect(id).topics_of(trim_spec(id)) == Set::<Seq<char>>::empty(),
{
    assert(b.after_disconnect(id).topics_of(trim_spec(id)) =~= Set::<Seq<char>>::empty());
}

/// A registration is read back: the user is stored under its id, so a second
/// registration with that id finds it (and is refused).
pub proof fn law_registration_is_kept(b: BrokerView, user: UserView)
    ensures
        b.after_register(user).users.contains_key(user.id),
        b.after_register(user).users[user.id] == user,
{
}

/// A topic that is created is empty, whatever stood under its name before.
pub proof fn law_new_topic_is_empty(b: BrokerView, name: Seq<char>)
    ensures
        b.after_insert_topic(name).topics.contains_key(name),
        b.after_insert_topic(name).topics[name] == TopicView::empty(),
{
}

/// Posting changes nobody's subscription: every subscriber of every topic,
/// the topic posted to included, keeps its user, its connection and its
/// stream, the users stay as they were, and the same subscribers watch the
/// topic after the post as before it, so a second post reaches them too.
pub proof fn law_post_keeps_subscribers(b: BrokerView, topic: Seq<char>, m: MessageView, t: Seq<char>)
    requires
        b.topics.contains_key(topic),
        b.topics.contains_key(t),
    ensures
        b.after_post(topic, m).topics.contains_key(t),
        b.after_post(topic, m).topics[t].suscriptores == b.topics[t].suscriptores,
        b.after_post(topic, m).topics[topic].watching() == b.topics[topic].watching(),
        b.after_post(topic, m).after_post(topic, m).topics[topic].suscriptores
            == b.topics[topic].suscriptores,
        b.after_post(topic, m).users == b.users,
{
}

/// Subscribing touches only the subscriber under the new subscriber's
/// trimmed id: every other subscriber of that topic, and every subscriber of
/// every other topic, keeps its user, its connection and its stream, and the
/// users stay as they were.
pub proof fn law_subscribe_keeps_other_subscribers(
    b: BrokerView,
    topic: Seq<char>,
    user: UserView,
    t: Seq<char>,
    k: Seq<char>,
)
    requires
        b.topics.contains_key(topic),
        b.topics.contains_key(t),
        b.topics[t].suscriptores.contains_key(k),
        t != topic || k != trim_spec(user.id),
    ensures
        b.after_subscribe(topic, user).topics[t].suscriptores.contains_key(k),
        b.after_subscribe(topic, user).topics[t].suscriptores[k] == b.topics[t].suscriptores[k],
        b.after_subscribe(topic, user).topics[topic].suscriptores.dom() == b.topics[topic].suscriptores.dom().insert(
            trim_spec(user.id),
        ),
        b.after_subscribe(topic, user).users == b.users,
{
    assert(b.after_subscribe(topic, user).topics[topic].suscriptores.dom() =~= b.topics[topic].suscriptores.dom().insert(
        trim_spec(user.id),
    ));
}

/// A topic is listed for a key exactly when the topic has a subscriber under
/// that key, whether or not the subscriber is watching: starting or stopping
/// to watch, and posting, change no listing.
pub proof fn law_listing_ignores_watching(
    b: BrokerView,
    topic: Seq<char>,
    key: Seq<char>,
    other: Seq<char>,
    stream: u64,
    m: MessageView,
)
    requires
        b.topics.contains_key(topic),
        b.topics[topic].suscriptores.contains_key(key),
    ensures
        b.topics_of(key).contains(topic),
        b.after_attach(topic, key, stream).topics_of(other) == b.topics_of(other),
        b.after_detach(topic, key).topics_of(other) == b.topics_of(other),
        b.after_post(topic, m).topics_of(other) == b.topics_of(other),
        b.after_attach(topic, key, stream).topics_of(key).contains(topic),
{
    assert(b.after_attach(topic, key, stream).topics_of(other) =~= b.topics_of(other));
    assert(b.after_detach(topic, key).topics_of(other) =~= b.topics_of(other));
    assert(b.after_post(topic, m).topics_of(other) =~= b.topics_of(other));
}

/// Registering keeps every user registered before: each other id stays
/// registered with the same user, the new user is added, and the number of
/// users grows by one where the id was new. Topics do not change.
pub proof fn law_register_keeps_other_users(b: BrokerView, user: UserView, k: Seq<char>)
    requires
        b.users.dom().finite(),
    ensures
        b.users.contains_key(k) ==> b.after_register(user).users.contains_key(k),
        b.users.contains_key(k) && k != user.id ==> b.after_register(user).users[k] == b.users[k],
        b.after_register(user).users.dom() == b.users.dom().insert(user.id),
        !b.users.contains_key(user.id) ==> b.after_register(user).users.len() == b.users.len() + 1,
        b.after_register(user).topics == b.topics,
{
    assert(b.after_register(user).users.dom() =~= b.users.dom().insert(user.id));
}

/// Stopping a subscriber's watch touches only that subscriber: every other
/// subscriber of the topic, and every subscriber of every other topic, keeps
/// its user, its connection and its stream, and the watchers of the topic
/// are those of before but that one.
pub proof fn law_detach_keeps_other_subscribers(
    b: BrokerView,
    topic: Seq<char>,
    key: Seq<char>,
    t: Seq<char>,
    k: Seq<char>,
)
    requires
        b.topics.contains_key(t),
        b.topics[t].suscriptores.contains_key(k),
        t != topic || k != key,
    ensures
        b.after_detach(topic, key).topics[t].suscriptores.contains_key(k),
        b.after_detach(topic, key).topics[t].suscriptores[k] == b.topics[t].suscriptores[k],
        b.topics.contains_key(topic) ==> b.after_detach(topic, key).topics[topic].watching()
            == b.topics[topic].watching().remove(key),
        b.after_detach(topic, key).users == b.users,
{
    if b.topics.contains_key(topic) {
        assert(b.after_detach(topic, key).topics[topic].watching() =~= b.topics[topic].watching().remove(key));
    }
}

/// Starting a watch touches only that subscriber: every other subscriber
/// keeps its user, its connection and its stream, and the watchers of the
/// topic are those of before plus that one.
pub proof fn law_attach_keeps_other_subscribers(
    b: BrokerView,
    topic: Seq<char>,
    key: Seq<char>,
    stream: u64,
    t: Seq<char>,
    k: Seq<char>,
)
    requires
        b.topics.contains_key(topic),
        b.topics[topic].suscriptores.contains_key(key),
        b.topics.contains_key(t),
        b.topics[t].suscriptores.contains_key(k),
        t != topic || k != key,
    ensures
        b.after_attach(topic, key, stream).topics[t].suscriptores[k] == b.topics[t].suscriptores[k],
        b.after_attach(topic, key, stream).topics[topic].watching() == b.topics[topic].watching().insert(
            key,
        ),
        b.after_attach(topic, key, stream).users == b.users,
{
    assert(b.after_attach(topic, key, stream).topics[topic].watching() =~= b.topics[topic].watching().insert(
        key,
    ));
}

/// A client's disconnection touches only that id: every subscriber under
/// another id keeps its user, its connection and its stream, and every other
/// user stays registered as it was.
pub proof fn law_disconnect_keeps_others(b: BrokerView, id: Seq<char>, t: Seq<char>, k: Seq<char>)
    requires
        k != id,
    ensures
        b.topics.contains_key(t) && b.topics[t].suscriptores.contains_key(k) ==> {
            &&& b.after_disconnect(id).topics[t].suscriptores.contains_key(k)
            &&& b.after_disconnect(id).topics[t].suscriptores[k] == b.topics[t].suscriptores[k]
        },
        b.users.contains_key(k) ==> b.after_disconnect(id).users.contains_key(k)
            && b.after_disconnect(id).users[k] == b.users[k],
{
}

} // verus!
