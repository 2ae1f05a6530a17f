//! What is known of the game at the current point of a demo.

use crate::instancebaseline::{
    InstanceBaseline, UpdateBaselineError, INSTANCE_BASELINE_TABLE_NAME,
};
use crate::messages::EntityClasses;
use crate::stringtables::{StringTableContainer, TableModel};
use vstd::prelude::*;

verus! {

/// The state of the game as far as it is known. `S` are the flattened serializers and `E` the
/// entities, which their own decoders fill.
#[derive(Debug)]
pub struct Context<S, E> {
    pub(crate) string_tables: StringTableContainer,
    pub(crate) instance_baseline: InstanceBaseline,
    pub(crate) serializers: Option<S>,
    pub(crate) entity_classes: Option<EntityClasses>,
    pub(crate) entities: Option<E>,
    pub(crate) tick_interval: u32,
    pub(crate) full_packet_interval: i32,
    pub(crate) tick: i32,
    pub(crate) prev_tick: i32,
}

/// What a [`Context`] stands for.
pub struct ContextModel<S, E> {
    pub string_tables: Seq<TableModel>,
    pub instance_baseline: Seq<Option<Seq<u8>>>,
    pub serializers: Option<S>,
    pub entity_classes: Option<EntityClasses>,
    pub entities: Option<E>,
    pub tick_interval: u32,
    pub full_packet_interval: i32,
    pub tick: i32,
    pub prev_tick: i32,
}

impl<S, E> ContextModel<S, E> {
    /// Nothing is known yet.
    pub open spec fn initial() -> Self {
        ContextModel {
            string_tables: Seq::empty(),
            instance_baseline: Seq::empty(),
            serializers: None,
            entity_classes: None,
            entities: None,
            tick_interval: 0,
            full_packet_interval: 0,
            tick: (-1) as i32,
            prev_tick: (-1) as i32,
        }
    }

    /// What stays known when a demo is started over: all that never changes in it.
    pub open spec fn rewound(self) -> Self {
        ContextModel {
            string_tables: Seq::empty(),
            instance_baseline: Seq::empty(),
            entities: None,
            tick: (-1) as i32,
            prev_tick: (-1) as i32,
            ..self
        }
    }

    /// The baselines taken over from `table`, where the classes are known.
    pub open spec fn with_baselines(self, table: TableModel) -> (
        Self,
        Result<(), UpdateBaselineError>,
    ) {
        match self.entity_classes {
            None => (self, Ok(())),
            Some(entity_classes) => {
                let (result, instance_baseline) = crate::instancebaseline::applied(
                    crate::instancebaseline::resized(
                        self.instance_baseline,
                        entity_classes.classes as nat,
                    ),
                    table.items,
                );
                (ContextModel { instance_baseline, ..self }, result)
            },
        }
    }

    /// The baselines taken over from the table that is named after them, if there is one.
    pub open spec fn with_named_baselines(self) -> (Self, Result<(), UpdateBaselineError>) {
        match crate::stringtables::table_named(
            self.string_tables,
            INSTANCE_BASELINE_TABLE_NAME@,
        ) {
            None => (self, Ok(())),
            Some(table) => self.with_baselines(table),
        }
    }

    /// The table at `id` has the entries `items`, and the baselines follow it if it is theirs.
    pub open spec fn with_items(
        self,
        id: int,
        items: Seq<crate::stringtables::ItemModel>,
    ) -> (Self, Result<(), UpdateBaselineError>) {
        let table = TableModel { items, ..self.string_tables[id] };
        let next = ContextModel { string_tables: self.string_tables.update(id, table), ..self };
        if table.name == INSTANCE_BASELINE_TABLE_NAME@ {
            next.with_baselines(table)
        } else {
            (next, Ok(()))
        }
    }
}

impl<S, E> View for Context<S, E> {
    type V = ContextModel<S, E>;

    closed spec fn view(&self) -> ContextModel<S, E> {
        ContextModel {
            string_tables: self.string_tables@,
            instance_baseline: self.instance_baseline@,
            serializers: self.serializers,
            entity_classes: self.entity_classes,
            entities: self.entities,
            tick_interval: self.tick_interval,
            full_packet_interval: self.full_packet_interval,
            tick: self.tick,
            prev_tick: self.prev_tick,
        }
    }
}

impl<S, E> Context<S, E> {
    /// Nothing is known yet.
    pub fn new() -> (r: Self)
        ensures
            r@ == ContextModel::<S, E>::initial(),
    {
        Context {
            string_tables: StringTableContainer::new(),
            instance_baseline: InstanceBaseline::new(),
            serializers: None,
            entity_classes: None,
            entities: None,
            tick_interval: 0,
            full_packet_interval: 0,
            tick: -1,
            prev_tick: -1,
        }
    }

    /// The string tables, once there are any.
    #[must_use]
    pub fn string_tables(&self) -> (r: Option<&StringTableContainer>)
        ensures
            match r {
                Some(tables) => self@.string_tables.len() > 0 && tables@ == self@.string_tables,
                None => self@.string_tables.len() == 0,
            },
    {
        if self.string_tables.is_empty() {
            None
        } else {
            Some(&self.string_tables)
        }
    }

    /// The baselines of the entity classes.
    #[must_use]
    pub fn instance_baseline(&self) -> (r: &InstanceBaseline)
        ensures
            r@ == self@.instance_baseline,
    {
        &self.instance_baseline
    }

    /// The flattened serializers, once they have been read.
    #[must_use]
    pub fn serializers(&self) -> (r: Option<&S>)
        ensures
            match r {
                Some(serializers) => self@.serializers == Some(*serializers),
                None => self@.serializers is None,
            },
    {
        match &self.serializers {
            Some(serializers) => Some(serializers),
            None => None,
        }
    }

    /// The entity classes, once they have been read.
    #[must_use]
    pub fn entity_classes(&self) -> (r: Option<&EntityClasses>)
        ensures
            match r {
                Some(entity_classes) => self@.entity_classes == Some(*entity_classes),
                None => self@.entity_classes is None,
            },
    {
        match &self.entity_classes {
            Some(entity_classes) => Some(entity_classes),
            None => None,
        }
    }

    /// The entities, once there are any.
    #[must_use]
    pub fn entities(&self) -> (r: Option<&E>)
        ensures
            match r {
                Some(entities) => self@.entities == Some(*entities),
                None => self@.entities is None,
            },
    {
        match &self.entities {
            Some(entities) => Some(entities),
            None => None,
        }
    }

    /// The bit pattern of the time between two ticks, a 32-bit floating point number of seconds that
    /// is zero until the server has told it.
    #[must_use]
    pub fn tick_interval(&self) -> (r: u32)
        ensures
            r == self@.tick_interval,
    {
        self.tick_interval
    }

    /// The current tick.
    #[must_use]
    pub fn tick(&self) -> (r: i32)
        ensures
            r == self@.tick,
    {
        self.tick
    }

    /// Forgets what changes in the course of a demo.
    pub(crate) fn rewind(&mut self)
        ensures
            final(self)@ == old(self)@.rewound(),
    {
        self.entities = None;
        self.string_tables.clear();
        self.instance_baseline.clear();
        self.tick = -1;
        self.prev_tick = -1;
    }

    pub(crate) fn take_entities(&mut self) -> (r: Option<E>)
        ensures
            r == old(self)@.entities,
            final(self)@ == (ContextModel { entities: None, ..old(self)@ }),
    {
        self.entities.take()
    }

    pub(crate) fn set_entities(&mut self, entities: Option<E>)
        ensures
            final(self)@ == (ContextModel { entities, ..old(self)@ }),
    {
        self.entities = entities;
    }

    pub(crate) fn set_serializers(&mut self, serializers: S)
        ensures
            final(self)@ == (ContextModel { serializers: Some(serializers), ..old(self)@ }),
    {
        self.serializers = Some(serializers);
    }

    pub(crate) fn set_entity_classes(&mut self, entity_classes: EntityClasses)
        ensures
            final(self)@ == (ContextModel { entity_classes: Some(entity_classes), ..old(self)@ }),
    {
        self.entity_classes = Some(entity_classes);
    }

    pub(crate) fn set_string_tables(&mut self, string_tables: StringTableContainer)
        ensures
            final(self)@ == (ContextModel { string_tables: string_tables@, ..old(self)@ }),
    {
        self.string_tables = string_tables;
    }

    pub(crate) fn create_string_table(
        &mut self,
        name: String,
        layout: crate::stringtables::TableLayout,
    ) -> (r: usize)
        ensures
            r == old(self)@.string_tables.len(),
            final(self)@ == (ContextModel {
                string_tables: old(self)@.string_tables.push(
                    TableModel { name: name@, layout, items: Seq::empty() },
                ),
                ..old(self)@
            }),
    {
        self.string_tables.create_string_table(name, layout)
    }

    pub(crate) fn has_string_table(&self, id: usize) -> (r: bool)
        ensures
            r == (id < self@.string_tables.len()),
    {
        self.string_tables.has_table(id)
    }

    pub(crate) fn set_tick_interval(&mut self, tick_interval: u32, full_packet_interval: i32)
        ensures
            final(self)@ == (ContextModel { tick_interval, full_packet_interval, ..old(self)@ }),
    {
        self.tick_interval = tick_interval;
        self.full_packet_interval = full_packet_interval;
    }

    pub(crate) fn full_packet_interval(&self) -> (r: i32)
        ensures
            r == self@.full_packet_interval,
    {
        self.full_packet_interval
    }

    /// Goes to the tick of the next command.
    pub(crate) fn set_tick(&mut self, tick: i32)
        ensures
            final(self)@ == (ContextModel { tick, prev_tick: old(self)@.tick, ..old(self)@ }),
    {
        self.prev_tick = self.tick;
        self.tick = tick;
    }

    /// Goes back to the tick of the command before.
    pub(crate) fn restore_tick(&mut self)
        ensures
            final(self)@ == (ContextModel { tick: old(self)@.prev_tick, ..old(self)@ }),
    {
        self.tick = self.prev_tick;
    }

    /// Whether the last command had another tick than the one before.
    pub(crate) fn changed_tick(&self) -> (r: bool)
        ensures
            r == (self@.prev_tick != self@.tick),
    {
        self.prev_tick != self.tick
    }

    /// Takes the baselines over from the table that is named after them.
    pub(crate) fn update_named_baselines(&mut self) -> (r: Result<(), UpdateBaselineError>)
        ensures
            (final(self)@, r) == old(self)@.with_named_baselines(),
    {
        if let Some(table) = self.string_tables.find_table(INSTANCE_BASELINE_TABLE_NAME) {
            if let Some(entity_classes) = self.entity_classes {
                return self.instance_baseline.update(table, entity_classes.classes);
            }
        }
        Ok(())
    }

    /// Replaces the entries of the table at `id`, and takes the baselines over from it if it is
    /// theirs.
    pub(crate) fn set_table_items(
        &mut self,
        id: usize,
        items: Vec<crate::stringtables::StringTableItem>,
    ) -> (r: Result<(), UpdateBaselineError>)
        requires
            id < old(self)@.string_tables.len(),
        ensures
            (final(self)@, r) == old(self)@.with_items(
                id as int,
                crate::stringtables::items_view(items@),
            ),
    {
        self.string_tables.set_items(id, items);
        if let Some(table) = self.string_tables.get_table(id) {
            if table.is_named(INSTANCE_BASELINE_TABLE_NAME) {
                if let Some(entity_classes) = self.entity_classes {
                    return self.instance_baseline.update(table, entity_classes.classes);
                }
            }
        }
        Ok(())
    }
}

/// It makes no difference whether the entity classes become known before or after the table of the
/// baselines: either way every class has the baseline of the last entry for it in the table.
pub proof fn lemma_baselines_in_either_order<S, E>(
    ctx: ContextModel<S, E>,
    table: TableModel,
    items: Seq<crate::stringtables::ItemModel>,
    entity_classes: EntityClasses,
)
    requires
        ctx.entity_classes is None,
        table.name == INSTANCE_BASELINE_TABLE_NAME@,
        crate::stringtables::table_named(ctx.string_tables, table.name) is None,
    ensures
        ({
            let id = ctx.string_tables.len() as int;
            let with_table = |ctx: ContextModel<S, E>|
                ContextModel { string_tables: ctx.string_tables.push(table), ..ctx };
            let with_classes = |ctx: ContextModel<S, E>|
                ContextModel { entity_classes: Some(entity_classes), ..ctx };
            let (filled, fill_result) = with_table(ctx).with_items(id, items);
            let (table_first, table_first_result) = with_classes(filled).with_named_baselines();
            let (known, known_result) = with_classes(ctx).with_named_baselines();
            let (classes_first, classes_first_result) = with_table(known).with_items(id, items);
            let before = crate::instancebaseline::resized(
                ctx.instance_baseline,
                entity_classes.classes as nat,
            );
            &&& fill_result is Ok
            &&& known_result is Ok
            &&& table_first == classes_first
            &&& table_first_result == classes_first_result
            &&& table_first_result is Ok ==> forall|class_id: int|
                0 <= class_id < before.len() ==> #[trigger] table_first.instance_baseline[class_id]
                    == crate::instancebaseline::baseline_from(items, class_id, before[class_id])
        }),
{
    let filled = TableModel { items, ..table };
    crate::stringtables::lemma_table_named_push(ctx.string_tables, filled);
    assert(ctx.string_tables.push(table).update(ctx.string_tables.len() as int, filled)
        =~= ctx.string_tables.push(filled));
    let before = crate::instancebaseline::resized(
        ctx.instance_baseline,
        entity_classes.classes as nat,
    );
    if crate::instancebaseline::applied(before, items).0 is Ok {
        assert forall|class_id: int| 0 <= class_id < before.len() implies
            #[trigger] crate::instancebaseline::applied(before, items).1[class_id]
            == crate::instancebaseline::baseline_from(items, class_id, before[class_id]) by {
            crate::instancebaseline::lemma_last_entry_decides(before, items, class_id);
        }
    }
}

/// Starting over forgets exactly what changes in the course of a demo: what is left is what a new game
/// would be that knows the serializers, the classes and the times between ticks already.
pub proof fn lemma_rewound_is_new<S, E>(ctx: ContextModel<S, E>)
    ensures
        ctx.rewound() == (ContextModel {
            serializers: ctx.serializers,
            entity_classes: ctx.entity_classes,
            tick_interval: ctx.tick_interval,
            full_packet_interval: ctx.full_packet_interval,
            ..ContextModel::<S, E>::initial()
        }),
        ({
            let new = ContextModel::<S, E>::initial();
            &&& new.tick == -1
            &&& new.prev_tick == -1
            &&& new.string_tables.len() == 0
            &&& new.instance_baseline.len() == 0
            &&& new.serializers is None
            &&& new.entity_classes is None
            &&& new.entities is None
            &&& new.tick_interval == 0
            &&& new.full_packet_interval == 0
        }),
{
}

} // verus!
