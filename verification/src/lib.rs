//! Railscale: verified wire formats and decision logic of a scriptable
//! network service — DNS messages and resolution, passenger decoders for
//! HTTP, TLS and raw TCP streams, streaming HTTP head codecs with header
//! rewriting, request-line routing, and the step functions the servers run.

// Outside types and the byte and text helpers everything else builds on.
pub mod buffers;
pub mod text;
pub mod lines;

// DNS.
pub mod dns_message;
pub mod dns_resolver;
pub mod dns_laws;
pub mod name_text_laws;
pub mod resolver_laws;

// Carriages: tickets, passengers and the metadata phase.
pub mod carriage;
pub mod ticket;
pub mod passenger_tcp;
pub mod passenger_http;
pub mod tls_hello;
pub mod passenger_tls;
pub mod ticket_pipeline;
pub mod passenger_laws;
pub mod hello_laws;

// HTTP heads: frames, codecs, rewriting and routing.
pub mod http_frame;
pub mod header_rewrite;
pub mod http_codec;
pub mod http_pipeline;
pub mod carriage_codec;
pub mod routing;

// What the servers decide per connection.
pub mod connection;
pub mod counters;
pub mod dev_server;
pub mod poc_server;
