//! The client interface and the rules of the relational adapter.
//!
//! The adapter's decisions live here; talking to the backend does not. A
//! caller that owns the connection asks the client what to send, sends it,
//! and hands back what the backend answered.

use vstd::prelude::*;
use crate::data_serialization::{text_of, Consumable};
use crate::errors::DataError;
use crate::row_codec::{
    all_encodable, dataset_of, dataset_text, encodable, encode_row, first_undecodable,
    lemma_first_undecodable_excludes, values_of, NativeRow, Value,
};
use crate::text::joined;

verus! {

/// What every backend adapter offers: read, convert, import.
///
/// `ConsumableType` is the backend's own row type.
pub trait DataClient {
    type ConsumableType;

    /// Reads the backend's default dataset. `None` when the backend fails.
    fn get_data_by_title(&mut self) -> Option<Consumable>;

    /// Converts backend rows without touching the connection.
    fn get_consumable_from_data(&mut self, dataset: Vec<Self::ConsumableType>) -> Result<
        Consumable,
        DataError,
    >;

    /// Creates in the backend the table that `data` describes.
    fn import_data(&mut self, data: Consumable) -> Result<(), DataError>;
}

/// The schema statement for a description whose first entry names the table
/// and whose other entries each define one column.
pub open spec fn create_table_statement(description: Seq<Seq<char>>) -> Seq<char>
    recommends
        description.len() > 0,
{
    "CREATE TABLE "@ + description[0] + "("@ + joined(description.skip(1), ","@) + " )"@
}

/// The address of a database for the given account.
pub open spec fn connection_url_text(
    username: Seq<char>,
    password: Seq<char>,
    hostname: Seq<char>,
    database: Seq<char>,
) -> Seq<char> {
    "postgresql://"@ + username + ":"@ + password + "@"@ + hostname + "/"@ + database
}

/// How a column type of the backend is read.
#[derive(Debug, Clone, Copy, PartialEq, Eq, Structural)]
pub enum ColumnKind {
    /// A 16-bit integer.
    SmallInt,
    /// A 32-bit integer.
    Int,
    /// A 64-bit integer.
    BigInt,
    /// A single-precision floating-point number.
    Real,
    /// A double-precision floating-point number.
    Double,
    /// Text of any declared length.
    Text,
    /// A type whose values have no textual form here.
    Unsupported,
}

/// The kind of the backend type with the given object identifier.
pub open spec fn kind_of_oid(oid: u32) -> ColumnKind {
    if oid == 21 {
        ColumnKind::SmallInt
    } else if oid == 23 {
        ColumnKind::Int
    } else if oid == 20 {
        ColumnKind::BigInt
    } else if oid == 700 {
        ColumnKind::Real
    } else if oid == 701 {
        ColumnKind::Double
    } else if oid == 25 || oid == 1043 || oid == 1042 || oid == 19 {
        ColumnKind::Text
    } else {
        ColumnKind::Unsupported
    }
}

/// Something that happens to a client after it was created.
pub enum ClientEvent {
    /// The backend answered a read.
    QueryAnswered,
    /// A read failed.
    QueryFailed,
    /// The backend carried out a statement.
    StatementExecuted,
    /// A statement failed.
    StatementFailed,
    /// The client is being torn down.
    Teardown,
}

/// Whether a client still holds its connection after `event`.
pub open spec fn connected_after(connected: bool, event: ClientEvent) -> bool {
    connected && !(event is Teardown)
}

/// Whether `event` makes a client give up its connection.
pub open spec fn releases(connected: bool, event: ClientEvent) -> bool {
    connected && event is Teardown
}

/// Whether a client still holds its connection after `events`.
pub open spec fn connected_after_all(connected: bool, events: Seq<ClientEvent>) -> bool
    decreases events.len(),
{
    if events.len() == 0 {
        connected
    } else {
        connected_after(connected_after_all(connected, events.drop_last()), events.last())
    }
}

/// How often a client gives up its connection in the course of `events`.
pub open spec fn release_count(connected: bool, events: Seq<ClientEvent>) -> nat
    decreases events.len(),
{
    if events.len() == 0 {
        0
    } else {
        let earlier = events.drop_last();
        release_count(connected, earlier) + if releases(
            connected_after_all(connected, earlier),
            events.last(),
        ) {
            1nat
        } else {
            0nat
        }
    }
}

/// Whatever happens to a connected client, and however its operations end,
/// the connection is given up once if a teardown is among the events and
/// not at all otherwise; and it is held exactly as long as no teardown
/// occurred.
pub proof fn lemma_released_exactly_once(events: Seq<ClientEvent>)
    ensures
        (exists|i: int| 0 <= i < events.len() && events[i] is Teardown) ==> release_count(
            true,
            events,
        ) == 1 && !connected_after_all(true, events),
        (forall|i: int| 0 <= i < events.len() ==> !(events[i] is Teardown)) ==> release_count(
            true,
            events,
        ) == 0 && connected_after_all(true, events),
    decreases events.len(),
{
    if events.len() > 0 {
        let earlier = events.drop_last();
        lemma_released_exactly_once(earlier);
        if exists|i: int| 0 <= i < earlier.len() && earlier[i] is Teardown {
            let i = choose|i: int| 0 <= i < earlier.len() && earlier[i] is Teardown;
            assert(events[i] is Teardown);
        } else {
            assert forall|i: int| 0 <= i < earlier.len() implies !(earlier[i] is Teardown) by {}
            if events.last() is Teardown {
                assert(events[events.len() - 1] is Teardown);
            } else {
                assert forall|i: int| 0 <= i < events.len() implies !(events[i] is Teardown) by {
                    if i < earlier.len() {
                        assert(earlier[i] == events[i]);
                    }
                }
            }
        }
        if exists|i: int| 0 <= i < events.len() && events[i] is Teardown {
            let i = choose|i: int| 0 <= i < events.len() && events[i] is Teardown;
            if i < earlier.len() {
                assert(earlier[i] is Teardown);
            }
        }
    }
}

/// A client that was torn down gives up nothing more.
pub proof fn lemma_no_release_when_disconnected(events: Seq<ClientEvent>)
    ensures
        release_count(false, events) == 0,
        !connected_after_all(false, events),
    decreases events.len(),
{
    if events.len() > 0 {
        lemma_no_release_when_disconnected(events.drop_last());
    }
}

/// What a [`PostgresSQLClient`] holds.
pub struct ClientModel {
    pub user_name: Seq<char>,
    pub pass_word: Seq<char>,
    pub host_name: Seq<char>,
    pub data_base: Seq<char>,
    pub port: Seq<char>,
    pub connected: bool,
}

/// Whether `data` is what converting `rows` gives: the encoded rows, or the
/// first place that cannot be written.
pub open spec fn converted(rows: Seq<Seq<Value>>, data: Result<Consumable, DataError>) -> bool {
    match data {
        Ok(consumable) => all_encodable(rows) && consumable@ == dataset_text(rows),
        Err(DataError::DecodeError { row, column }) => first_undecodable(
            rows,
            row as int,
            column as int,
        ),
        Err(_) => false,
    }
}

/// The relational adapter: the account it was created for, and whether it
/// still holds its connection.
pub struct PostgresSQLClient {
    user_name: String,
    pass_word: String,
    host_name: String,
    data_base: String,
    port: String,
    connected: bool,
}

impl View for PostgresSQLClient {
    type V = ClientModel;

    closed spec fn view(&self) -> ClientModel {
        ClientModel {
            user_name: self.user_name@,
            pass_word: self.pass_word@,
            host_name: self.host_name@,
            data_base: self.data_base@,
            port: self.port@,
            connected: self.connected,
        }
    }
}

impl PostgresSQLClient {
    /// The address to connect to for the given account.
    pub fn connection_url(username: &str, password: &str, hostname: &str, database: &str) -> (url:
        String)
        ensures
            url@ == connection_url_text(username@, password@, hostname@, database@),
    {
        let mut url = String::from_str("postgresql://");
        url.append(username);
        url.append(":");
        url.append(password);
        url.append("@");
        url.append(hostname);
        url.append("/");
        url.append(database);
        url
    }

    /// The client for a connection attempt that has ended. `connected` says
    /// whether the backend at [`PostgresSQLClient::connection_url`] accepted
    /// the connection. Without a connection there is no client.
    pub fn new(
        username: &str,
        password: &str,
        hostname: &str,
        database: &str,
        connected: bool,
    ) -> (client: Option<PostgresSQLClient>)
        ensures
            client is Some <==> connected,
            client matches Some(made) ==> made@ == (ClientModel {
                user_name: username@,
                pass_word: password@,
                host_name: hostname@,
                data_base: database@,
                port: Seq::empty(),
                connected: true,
            }),
    {
        if connected {
            Some(
                PostgresSQLClient {
                    user_name: String::from_str(username),
                    pass_word: String::from_str(password),
                    host_name: String::from_str(hostname),
                    data_base: String::from_str(database),
                    port: String::new(),
                    connected: true,
                },
            )
        } else {
            None
        }
    }

    /// Whether the client still holds its connection.
    pub fn is_connected(&self) -> (connected: bool)
        ensures
            connected == self@.connected,
    {
        self.connected
    }

    /// Ends the client's use of its connection. Returns whether the caller
    /// has to release the connection now: `true` the first time, `false`
    /// ever after.
    pub fn teardown(&mut self) -> (release: bool)
        ensures
            release == releases(old(self)@.connected, ClientEvent::Teardown),
            final(self)@ == (ClientModel {
                connected: connected_after(old(self)@.connected, ClientEvent::Teardown),
                ..old(self)@
            }),
    {
        let release = self.connected;
        self.connected = false;
        release
    }

    /// How the backend type with the given object identifier is read.
    pub fn column_kind(oid: u32) -> (kind: ColumnKind)
        ensures
            kind == kind_of_oid(oid),
    {
        if oid == 21 {
            ColumnKind::SmallInt
        } else if oid == 23 {
            ColumnKind::Int
        } else if oid == 20 {
            ColumnKind::BigInt
        } else if oid == 700 {
            ColumnKind::Real
        } else if oid == 701 {
            ColumnKind::Double
        } else if oid == 25 || oid == 1043 || oid == 1042 || oid == 19 {
            ColumnKind::Text
        } else {
            ColumnKind::Unsupported
        }
    }

    /// Writes each row as one string, in order.
    ///
    /// Fails with the row and column of the first value that has no textual
    /// form; nothing of what was written before is returned then.
    pub fn rows_to_string(rows: Vec<NativeRow>) -> (written: Result<Vec<String>, DataError>)
        ensures
            match written {
                Ok(strings) => all_encodable(dataset_of(rows@)) && text_of(strings@)
                    == dataset_text(dataset_of(rows@)),
                Err(DataError::DecodeError { row, column }) => first_undecodable(
                    dataset_of(rows@),
                    row as int,
                    column as int,
                ),
                Err(_) => false,
            },
    {
        let ghost dataset = dataset_of(rows@);
        let mut rows_as_strings: Vec<String> = Vec::new();
        let mut i: usize = 0;
        while i < rows.len()
            invariant
                i <= rows.len(),
                dataset == dataset_of(rows@),
                rows_as_strings.len() == i,
                all_encodable(dataset.take(i as int)),
                forall|j: int| 0 <= j < i ==> (#[trigger] rows_as_strings[j])@ == dataset_text(
                    dataset,
                )[j],
            decreases rows.len() - i,
        {
            proof {
                assert(dataset[i as int] == values_of(rows[i as int]@));
            }
            match encode_row(&rows[i]) {
                Ok(text) => {
                    rows_as_strings.push(text);
                },
                Err(column) => {
                    return Err(DataError::DecodeError { row: i, column });
                },
            }
            proof {
                assert forall|j: int| 0 <= j < i + 1 implies encodable(
                    #[trigger] dataset.take(i + 1)[j],
                ) by {
                    if j < i {
                        assert(dataset.take(i as int)[j] == dataset.take(i + 1)[j]);
                    }
                }
            }
            i += 1;
        }
        proof {
            assert(dataset.take(rows.len() as int) == dataset);
            assert(text_of(rows_as_strings@) == dataset_text(dataset));
        }
        Ok(rows_as_strings)
    }

    /// Builds the `CREATE TABLE` statement for `rows`: the table name, then
    /// one definition per column, each already written as
    /// `<name> <type> [constraints]`.
    ///
    /// The token placement is fixed: nothing between the name and `(`, a bare
    /// comma between columns, one space before `)`. A table without columns
    /// therefore reads `CREATE TABLE <name>( )`.
    ///
    /// The entries are copied as they are. Nothing is escaped: whoever
    /// supplies the description answers for its contents.
    pub fn make_table_query_string(rows: &Vec<String>) -> (statement: Result<String, DataError>)
        ensures
            rows.len() == 0 ==> statement == Err::<String, DataError>(
                DataError::MalformedSchemaError,
            ),
            rows.len() > 0 ==> statement is Ok && statement->Ok_0@ == create_table_statement(
                text_of(rows@),
            ),
    {
        if rows.len() == 0 {
            return Err(DataError::MalformedSchemaError);
        }
        let mut query = String::from_str("CREATE TABLE ");
        query.append(rows[0].as_str());
        query.append("(");
        let ghost head = query@;
        let ghost columns = text_of(rows@).skip(1);
        let mut i: usize = 1;
        while i < rows.len()
            invariant
                1 <= i <= rows.len(),
                columns == text_of(rows@).skip(1),
                query@ == head + joined(columns.take(i - 1), ","@),
            decreases rows.len() - i,
        {
            if i > 1 {
                query.append(",");
            }
            query.append(rows[i].as_str());
            proof {
                assert(columns.take(i as int).drop_last() == columns.take(i - 1));
                assert(columns.take(i as int).last() == rows[i as int]@);
            }
            i += 1;
        }
        proof {
            assert(columns.take(rows.len() - 1) == columns);
        }
        query.append(" )");
        Ok(query)
    }

    /// The statement that creates the table `table` describes, for the
    /// caller to execute on the client's connection.
    ///
    /// Fails with `ConnectionError` when the client was torn down, and with
    /// `MalformedSchemaError` when `table` does not even name the table.
    pub fn make_table_from_consumable(&mut self, table: Consumable) -> (statement: Result<
        String,
        DataError,
    >)
        ensures
            *final(self) == *old(self),
            !old(self)@.connected ==> statement == Err::<String, DataError>(
                DataError::ConnectionError,
            ),
            old(self)@.connected && table@.len() == 0 ==> statement == Err::<String, DataError>(
                DataError::MalformedSchemaError,
            ),
            old(self)@.connected && table@.len() > 0 ==> statement is Ok && statement->Ok_0@
                == create_table_statement(table@),
    {
        if !self.connected {
            return Err(DataError::ConnectionError);
        }
        PostgresSQLClient::make_table_query_string(table.get_data())
    }

    /// Creates the table that `data` describes: gives the statement for the
    /// caller to execute on the client's connection. What the backend made
    /// of it goes to [`PostgresSQLClient::statement_result`].
    ///
    /// Fails with `ConnectionError` when the client was torn down, and with
    /// `MalformedSchemaError` when `data` does not even name the table.
    pub fn import_data(&mut self, data: Consumable) -> (statement: Result<String, DataError>)
        ensures
            *final(self) == *old(self),
            !old(self)@.connected ==> statement == Err::<String, DataError>(
                DataError::ConnectionError,
            ),
            old(self)@.connected && data@.len() == 0 ==> statement == Err::<String, DataError>(
                DataError::MalformedSchemaError,
            ),
            old(self)@.connected && data@.len() > 0 ==> statement is Ok && statement->Ok_0@
                == create_table_statement(data@),
    {
        self.make_table_from_consumable(data)
    }

    /// What an import comes to once the backend has dealt with its
    /// statement. `executed` says whether the backend carried it out.
    ///
    /// A failure is handed to the caller and leaves the client as it was:
    /// nothing is retried, and the connection stays with the client until
    /// it is torn down.
    pub fn statement_result(&mut self, executed: bool) -> (result: Result<(), DataError>)
        ensures
            *final(self) == *old(self),
            executed ==> result == Ok::<(), DataError>(()),
            !executed ==> result == Err::<(), DataError>(DataError::ExecutionError),
    {
        if executed {
            Ok(())
        } else {
            Err(DataError::ExecutionError)
        }
    }

    /// Converts backend rows into a [`Consumable`]: one entry per row, in
    /// order. Neither reads nor changes the client.
    ///
    /// Fails with the row and column of the first value that has no textual
    /// form.
    pub fn get_consumable_from_data(&mut self, dataset: Vec<NativeRow>) -> (data: Result<
        Consumable,
        DataError,
    >)
        ensures
            *final(self) == *old(self),
            converted(dataset_of(dataset@), data),
    {
        match PostgresSQLClient::rows_to_string(dataset) {
            Ok(consumable_data) => Ok(Consumable::new(consumable_data)),
            Err(e) => Err(e),
        }
    }

    /// The data that the backend's answer to the title query holds. `answer`
    /// is `None` when the read failed.
    ///
    /// `None` whenever [`PostgresSQLClient::data_from_answer`] fails, which
    /// tells the reason.
    pub fn get_data_by_title(&mut self, answer: Option<Vec<NativeRow>>) -> (data: Option<
        Consumable,
    >)
        ensures
            *final(self) == *old(self),
            data is Some <==> old(self)@.connected && answer is Some && all_encodable(
                dataset_of(answer->Some_0@),
            ),
            data matches Some(consumable) ==> consumable@ == dataset_text(
                dataset_of(answer->Some_0@),
            ),
    {
        let ghost rows = if answer is Some {
            dataset_of(answer->Some_0@)
        } else {
            Seq::empty()
        };
        match self.data_from_answer(answer) {
            Ok(consumable) => Some(consumable),
            Err(e) => {
                proof {
                    if old(self)@.connected && answer is Some {
                        match e {
                            DataError::DecodeError { row, column } => {
                                lemma_first_undecodable_excludes(rows, row as int, column as int);
                            },
                            _ => {},
                        }
                    }
                }
                None
            },
        }
    }

    /// The read that [`PostgresSQLClient::get_data_by_title`] stands for,
    /// for the caller to run on the client's connection. `None` when the
    /// client was torn down.
    pub fn title_query(&self) -> (query: Option<String>)
        ensures
            query is Some <==> self@.connected,
            query matches Some(text) ==> text@ == "SELECT * FROM materials_list"@,
    {
        if self.connected {
            Some(String::from_str("SELECT * FROM materials_list"))
        } else {
            None
        }
    }

    /// Turns the backend's answer to the title query into data, and says
    /// what went wrong otherwise. `answer` is `None` when the read failed.
    ///
    /// A failure leaves the client as it was: nothing is retried, and the
    /// connection stays with the client until it is torn down.
    pub fn data_from_answer(&mut self, answer: Option<Vec<NativeRow>>) -> (data: Result<
        Consumable,
        DataError,
    >)
        ensures
            *final(self) == *old(self),
            !old(self)@.connected ==> data is Err && data->Err_0 == DataError::ConnectionError,
            old(self)@.connected && answer is None ==> data is Err && data->Err_0
                == DataError::QueryError,
            old(self)@.connected && answer is Some ==> converted(
                dataset_of(answer->Some_0@),
                data,
            ),
    {
        if !self.connected {
            return Err(DataError::ConnectionError);
        }
        match answer {
            None => Err(DataError::QueryError),
            Some(dataset) => self.get_consumable_from_data(dataset),
        }
    }
}

} // verus!
