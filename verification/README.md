# message_broker

A publish/subscribe message broker: users register, subscribe to topics,
post messages to the topics they are subscribed to, and watch a topic, which
hands them the messages posted so far and then every new one.

- `src/` is the verified library (Verus):
  - `broker.rs`: the broker's state (topics, their messages and subscribers,
    registered users), its model, and the request handlers with their
    contracts;
  - `laws.rs`: properties of the broker that span operations, proved over
    the model;
  - `client.rs`: the decisions of the terminal client (menu, topic choice,
    message input, registration);
  - `queue.rs`: a FIFO queue;
  - `strmap.rs`: a map keyed by strings, with distinct keys;
  - `text.rs`: trimming and number parsing, with their specifications.
- `tests/`: tests of the library.
- `app/`: the asynchronous service (locks, channels, streams, the log file)
  and the terminal client, around the library.
