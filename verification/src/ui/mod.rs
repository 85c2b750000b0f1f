pub mod bouquet_loading;
pub mod channel_list;
pub mod channel_overlay;
pub mod epg_order;
pub mod epg_overlay;
pub mod load_state;
pub mod window_move;
