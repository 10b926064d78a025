use message_broker::broker::{BrokerError, BrokerTrait, Detach, ErrorCode, Message, User};

fn user(id: &str, nombre: &str) -> User {
    User { id: id.to_string(), nombre: nombre.to_string() }
}

fn message(id: &str, contenido: &str) -> Message {
    Message { id: id.to_string(), contenido: contenido.to_string() }
}

fn broker() -> BrokerTrait {
    let mut b = BrokerTrait::new();
    b.insert_topic("Pc".to_string());
    b.insert_topic("Politics".to_string());
    b.insert_topic("Memes".to_string());
    b
}

fn sorted(mut v: Vec<String>) -> Vec<String> {
    v.sort();
    v
}

fn expect_error<T>(r: Result<T, BrokerError>, code: ErrorCode, text: &str) {
    match r {
        Ok(_) => panic!("expected a refusal"),
        Err(e) => {
            assert_eq!(e.code, code);
            assert_eq!(e.message, text);
        }
    }
}

#[test]
fn all_topics_are_listed_once() {
    let b = broker();
    assert_eq!(sorted(b.get_all_topics()), vec!["Memes", "Pc", "Politics"]);
}

#[test]
fn inserting_a_topic_twice_keeps_one() {
    let mut b = broker();
    b.insert_topic("Pc".to_string());
    assert_eq!(b.get_all_topics().len(), 3);
}

#[test]
fn register_refuses_missing_user() {
    let mut b = broker();
    expect_error(b.register(None), ErrorCode::InvalidArgument, "Datos incompletos");
}

#[test]
fn register_refuses_blank_fields() {
    let mut b = broker();
    expect_error(b.register(Some(user("  ", "Ana"))), ErrorCode::InvalidArgument, "No puede ser vacio");
    expect_error(b.register(Some(user("a1", "\n"))), ErrorCode::InvalidArgument, "No puede ser vacio");
    assert!(b.register(Some(user("a1", "Ana"))).is_ok());
}

#[test]
fn register_twice_is_refused() {
    let mut b = broker();
    assert!(b.register(Some(user("a1", "Ana"))).is_ok());
    expect_error(b.register(Some(user("a1", "Otra"))), ErrorCode::AlreadyExists, "Usuario existente");
}

#[test]
fn subscribe_to_missing_topic_is_refused() {
    let mut b = broker();
    expect_error(b.subscribe(user("a1", "Ana"), "Nada"), ErrorCode::InvalidArgument, "No existe el topic");
    assert!(b.get_topics("a1").is_empty());
}

#[test]
fn subscription_is_listed_under_the_trimmed_id() {
    let mut b = broker();
    assert_eq!(b.subscribe(user(" a1\n", "Ana"), "Pc").unwrap(), "a1");
    assert_eq!(b.get_topics("a1"), vec!["Pc"]);
    assert_eq!(b.get_topics("a1 \n"), vec!["Pc"]);
    assert!(b.get_topics("b2").is_empty());
}

#[test]
fn subscription_adds_one_topic() {
    let mut b = broker();
    assert!(b.subscribe(user("a1", "Ana"), "Pc").is_ok());
    assert!(b.subscribe(user("a1", "Ana"), "Memes").is_ok());
    assert_eq!(sorted(b.get_topics("a1")), vec!["Memes", "Pc"]);
}

#[test]
fn second_subscription_is_refused() {
    let mut b = broker();
    assert!(b.subscribe(user("a1", "Ana"), "Pc").is_ok());
    expect_error(
        b.subscribe(user("a1 ", "Ana"), "Pc"),
        ErrorCode::AlreadyExists,
        "El usuario se encuentra ya suscrito al topic",
    );
    assert_eq!(b.get_topics("a1"), vec!["Pc"]);
}

#[test]
fn post_requires_topic_and_subscription() {
    let mut b = broker();
    expect_error(b.post_message("Nada", message("a1", "hola")), ErrorCode::NotFound, "El topic no existe");
    expect_error(
        b.post_message("Pc", message("a1", "hola")),
        ErrorCode::PermissionDenied,
        "El usuario no esta suscrito al topic. Debe suscribirse para poder enviar mensajes",
    );
}

#[test]
fn posted_message_is_read_back_in_order() {
    let mut b = broker();
    assert!(b.subscribe(user("a1", "Ana"), "Pc").is_ok());
    assert_eq!(b.post_message("Pc", message("a1", "uno")).unwrap(), Vec::<u64>::new());
    assert_eq!(b.post_message("Pc", message(" a1", "dos")).unwrap(), Vec::<u64>::new());
    let backlog = b.get_messages("a1", "Pc", 7).unwrap();
    assert_eq!(backlog.len(), 2);
    assert_eq!(backlog[0].contenido, "uno");
    assert_eq!(backlog[1].contenido, "dos");
    assert_eq!(backlog[1].id, " a1");
}

#[test]
fn get_messages_refusals() {
    let mut b = broker();
    expect_error(b.get_messages("a1", "Nada", 1), ErrorCode::NotFound, "No existe el topic");
    expect_error(
        b.get_messages("a1 ", "Pc", 1),
        ErrorCode::PermissionDenied,
        "El usuario a1 , no se encuentra suscrito al topic",
    );
}

#[test]
fn watchers_receive_posts_through_their_streams() {
    let mut b = broker();
    assert!(b.subscribe(user("a1", "Ana"), "Pc").is_ok());
    assert!(b.subscribe(user("b2", "Beto"), "Pc").is_ok());
    assert!(b.subscribe(user("c3", "Cata"), "Pc").is_ok());
    assert!(b.get_messages("a1", "Pc", 10).unwrap().is_empty());
    assert!(b.get_messages("b2", "Pc", 20).is_ok());
    let mut streams = b.post_message("Pc", message("c3", "hola")).unwrap();
    streams.sort();
    assert_eq!(streams, vec![10, 20]);
    assert_eq!(b.get_messages("c3", "Pc", 30).unwrap().len(), 1);
}

#[test]
fn detached_client_no_longer_receives() {
    let mut b = broker();
    assert!(b.subscribe(user("a1", "Ana"), "Pc").is_ok());
    assert!(b.get_messages("a1", "Pc", 5).is_ok());
    assert_eq!(b.remove_client_from_topic("Pc", "a1"), Detach::Detached);
    assert_eq!(b.post_message("Pc", message("a1", "x")).unwrap(), Vec::<u64>::new());
    assert_eq!(b.get_topics("a1"), vec!["Pc"]);
}

#[test]
fn detach_reports_what_was_missing() {
    let mut b = broker();
    assert!(b.subscribe(user("a1", "Ana"), "Pc").is_ok());
    assert_eq!(b.remove_client_from_topic("Nada", "a1"), Detach::UnknownTopic);
    assert_eq!(b.remove_client_from_topic("Pc", "zz"), Detach::UnknownSubscriber);
    assert_eq!(b.remove_client_from_topic("Pc", " a1"), Detach::UnknownSubscriber);
}

#[test]
fn disconnected_client_is_gone() {
    let mut b = broker();
    assert!(b.register(Some(user("a1", "Ana"))).is_ok());
    assert!(b.subscribe(user("a1", "Ana"), "Pc").is_ok());
    assert!(b.subscribe(user("a1", "Ana"), "Memes").is_ok());
    assert!(b.subscribe(user("b2", "Beto"), "Pc").is_ok());
    b.client_disconnected("a1");
    assert!(b.get_topics("a1").is_empty());
    assert_eq!(b.get_topics("b2"), vec!["Pc"]);
    assert!(b.register(Some(user("a1", "Ana"))).is_ok());
    assert_eq!(b.get_all_topics().len(), 3);
}

#[test]
fn messages_stay_after_their_author_disconnects() {
    let mut b = broker();
    assert!(b.subscribe(user("a1", "Ana"), "Pc").is_ok());
    assert!(b.subscribe(user("b2", "Beto"), "Pc").is_ok());
    assert!(b.post_message("Pc", message("a1", "hola")).is_ok());
    b.client_disconnected("a1");
    let backlog = b.get_messages("b2", "Pc", 1).unwrap();
    assert_eq!(backlog.len(), 1);
    assert_eq!(backlog[0].contenido, "hola");
}

#[test]
fn recreated_topic_is_empty() {
    let mut b = broker();
    assert!(b.subscribe(user("a1", "Ana"), "Pc").is_ok());
    assert!(b.post_message("Pc", message("a1", "hola")).is_ok());
    b.insert_topic("Pc".to_string());
    assert!(b.get_topics("a1").is_empty());
    expect_error(
        b.get_messages("a1", "Pc", 1),
        ErrorCode::PermissionDenied,
        "El usuario a1, no se encuentra suscrito al topic",
    );
}

#[test]
fn stream_of_reports_the_watching_stream() {
    let mut b = broker();
    assert_eq!(b.stream_of("Pc", "a1"), None);
    assert!(b.subscribe(user("a1", "Ana"), "Pc").is_ok());
    assert_eq!(b.stream_of("Pc", "a1"), None);
    assert!(b.get_messages("a1", "Pc", 9).is_ok());
    assert_eq!(b.stream_of("Pc", "a1"), Some(9));
    assert_eq!(b.stream_of("Nada", "a1"), None);
    assert_eq!(b.remove_client_from_topic("Pc", "a1"), Detach::Detached);
    assert_eq!(b.stream_of("Pc", "a1"), None);
}
